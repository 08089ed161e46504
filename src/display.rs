//! Display settings and small display pieces: scroll position, icon set,
//! color theme choice and view names.
use vstd::prelude::*;
use crate::text::{chars_of, decimal, lower_seq, push_decimal, push_str, starts_with, string_of, to_lower};

verus! {

/// Where a scrolled list stands: the first shown row, the rows, the rows shown.
pub struct ScrollIndicator {
    pub current: usize,
    pub total: usize,
    pub visible: usize,
}

/// The scroll position in whole percent, rounded down and at most 100.
pub open spec fn scroll_percent(current: nat, total: nat, visible: nat) -> nat {
    if total <= visible {
        100
    } else {
        let max_scroll = (total - visible) as nat;
        if current * 100 / max_scroll > 100 {
            100
        } else {
            current * 100 / max_scroll
        }
    }
}

/// `f` with each `{}` replaced by `v`.
pub open spec fn fill_braces(f: Seq<char>, v: Seq<char>) -> Seq<char>
    decreases f.len(),
{
    if f.len() == 0 {
        f
    } else if starts_with(f, seq!['{', '}']) {
        v + fill_braces(f.skip(2), v)
    } else {
        seq![f[0]] + fill_braces(f.drop_first(), v)
    }
}

impl ScrollIndicator {
    pub fn new(current: usize, total: usize, visible: usize) -> (r: ScrollIndicator)
        ensures
            r.current == current && r.total == total && r.visible == visible,
    {
        ScrollIndicator { current, total, visible }
    }

    pub fn needs_scrolling(&self) -> (r: bool)
        ensures
            r == (self.total > self.visible),
    {
        self.total > self.visible
    }

    /// The scroll position in whole percent.
    pub fn percent(&self) -> (r: usize)
        ensures
            r as nat == scroll_percent(self.current as nat, self.total as nat, self.visible as nat),
    {
        if self.total <= self.visible {
            return 100;
        }
        let max_scroll = (self.total - self.visible) as u128;
        let p = (self.current as u128) * 100 / max_scroll;
        if p > 100 {
            100
        } else {
            p as usize
        }
    }

    /// ` N%`, or nothing when everything fits.
    pub fn render(&self) -> (r: String)
        ensures
            r@ == if self.total > self.visible {
                " "@ + decimal(scroll_percent(self.current as nat, self.total as nat, self.visible as nat)) + "%"@
            } else {
                Seq::empty()
            },
    {
        if !self.needs_scrolling() {
            return String::new();
        }
        let mut out: Vec<char> = Vec::new();
        push_str(&mut out, " ");
        push_decimal(&mut out, self.percent() as u64);
        push_str(&mut out, "%");
        string_of(&out)
    }

    /// `format` with `{}` replaced by the percentage, or nothing when everything fits.
    pub fn render_with_format(&self, format: &str) -> (r: String)
        ensures
            r@ == if self.total > self.visible {
                fill_braces(format@, decimal(scroll_percent(self.current as nat, self.total as nat, self.visible as nat)))
            } else {
                Seq::empty()
            },
    {
        if !self.needs_scrolling() {
            return String::new();
        }
        let mut v: Vec<char> = Vec::new();
        push_decimal(&mut v, self.percent() as u64);
        let f = chars_of(format);
        let mut out: Vec<char> = Vec::new();
        let mut i: usize = 0;
        assert(f@.subrange(0, f@.len() as int) == f@);
        while i < f.len()
            invariant
                i <= f@.len(),
                out@ + fill_braces(f@.subrange(i as int, f@.len() as int), v@) == fill_braces(f@, v@),
            decreases f.len() - i,
        {
            let ghost rest = f@.subrange(i as int, f@.len() as int);
            let ghost before = out@;
            if i + 1 < f.len() && f[i] == '{' && f[i + 1] == '}' {
                assert(rest.subrange(0, 2) =~= seq!['{', '}']);
                crate::text::push_all(&mut out, &v);
                assert(rest.skip(2) == f@.subrange(i + 2, f@.len() as int));
                i += 2;
            } else {
                assert(!starts_with(rest, seq!['{', '}'])) by {
                    if starts_with(rest, seq!['{', '}']) {
                        assert(rest.subrange(0, 2)[0] == f@[i as int]);
                        assert(rest.subrange(0, 2)[1] == f@[i + 1]);
                    }
                }
                out.push(f[i]);
                assert(rest.drop_first() == f@.subrange(i + 1, f@.len() as int));
                i += 1;
            }
        }
        assert(out@ + Seq::<char>::empty() == out@);
        string_of(&out)
    }
}

/// Whether the terminal gets the Nerd Font icon set.
pub struct IconManager {
    pub nerd_fonts: bool,
}

/// What the terminal tells about itself through its environment.
pub struct TerminalInfo {
    pub nerd_fonts_setting: Option<String>,
    pub term_program: Option<String>,
    pub term: Option<String>,
    pub wsl_distro: Option<String>,
    pub wt_session: Option<String>,
}

pub open spec fn is_text(s: Seq<char>, t: &str) -> bool {
    s == t@
}

/// The terminals known to show Nerd Font icons.
pub open spec fn nerd_fonts_for(t: TerminalInfo) -> bool {
    match t.nerd_fonts_setting {
        Some(v) => is_text(v@, "1") || is_text(lower_seq(v@), "true"),
        None => {
            let program = match t.term_program {
                Some(p) => is_text(p@, "iTerm.app") || is_text(p@, "WezTerm") || is_text(p@, "Alacritty")
                    || is_text(p@, "kitty") || is_text(p@, "vscode") || is_text(p@, "Hyper"),
                None => false,
            };
            let term = match t.term {
                Some(x) => crate::text::contains(x@, "256color"@) || crate::text::contains(x@, "kitty"@),
                None => false,
            };
            let wsl = match (t.wsl_distro, t.wt_session) {
                (Some(w), Some(s)) => w@.len() > 0 && s@.len() > 0,
                _ => false,
            };
            program || term || wsl
        },
    }
}

fn same_text(s: &str, t: &str) -> (r: bool)
    ensures
        r == is_text(s@, t),
{
    let a = chars_of(s);
    let b = chars_of(t);
    crate::text::same_chars(&a, &b)
}

impl IconManager {
    pub fn new(nerd_fonts: bool) -> (r: IconManager)
        ensures
            r.nerd_fonts == nerd_fonts,
    {
        IconManager { nerd_fonts }
    }

    /// The icon set the terminal described by `t` can show.
    pub fn detect(t: &TerminalInfo) -> (r: IconManager)
        ensures
            r.nerd_fonts == nerd_fonts_for(*t),
    {
        let nerd = match &t.nerd_fonts_setting {
            Some(v) => {
                let c = chars_of(v.as_str());
                let l = to_lower(&c);
                let tr = chars_of("true");
                same_text(v.as_str(), "1") || crate::text::same_chars(&l, &tr)
            },
            None => {
                let program = match &t.term_program {
                    Some(p) => same_text(p.as_str(), "iTerm.app") || same_text(p.as_str(), "WezTerm")
                        || same_text(p.as_str(), "Alacritty") || same_text(p.as_str(), "kitty")
                        || same_text(p.as_str(), "vscode") || same_text(p.as_str(), "Hyper"),
                    None => false,
                };
                let term = match &t.term {
                    Some(x) => {
                        let c = chars_of(x.as_str());
                        let a = chars_of("256color");
                        let b = chars_of("kitty");
                        crate::text::has(&c, &a) || crate::text::has(&c, &b)
                    },
                    None => false,
                };
                let wsl = match (&t.wsl_distro, &t.wt_session) {
                    (Some(w), Some(s)) => w.unicode_len() > 0 && s.unicode_len() > 0,
                    _ => false,
                };
                program || term || wsl
            },
        };
        IconManager { nerd_fonts: nerd }
    }

    pub fn using_nerd_fonts(&self) -> (r: bool)
        ensures
            r == self.nerd_fonts,
    {
        self.nerd_fonts
    }

    pub fn set_nerd_fonts(&mut self, enabled: bool)
        ensures
            final(self).nerd_fonts == enabled,
    {
        self.nerd_fonts = enabled;
    }

    /// Switches the icon set and returns the new setting.
    pub fn toggle(&mut self) -> (r: bool)
        ensures
            r == !old(self).nerd_fonts,
            final(self).nerd_fonts == r,
    {
        self.nerd_fonts = !self.nerd_fonts;
        self.nerd_fonts
    }
}

/// The icons of one icon set.
pub struct Icons {
    pub nerd_fonts: bool,
}

impl Icons {
    pub fn new(manager: &IconManager) -> (r: Icons)
        ensures
            r.nerd_fonts == manager.nerd_fonts,
    {
        Icons { nerd_fonts: manager.nerd_fonts }
    }

    pub fn right_arrow(&self) -> (r: &'static str)
        ensures
            r@ == if self.nerd_fonts { "\u{f054}"@ } else { ">"@ },
    {
        if self.nerd_fonts {
            "\u{f054}"
        } else {
            ">"
        }
    }

    pub fn right_triangle(&self) -> (r: &'static str)
        ensures
            r@ == if self.nerd_fonts { "▶"@ } else { ">"@ },
    {
        if self.nerd_fonts {
            "▶"
        } else {
            ">"
        }
    }

    pub fn success(&self) -> (r: &'static str)
        ensures
            r@ == if self.nerd_fonts { "✔"@ } else { "[✓]"@ },
    {
        if self.nerd_fonts {
            "✔"
        } else {
            "[✓]"
        }
    }

    pub fn error(&self) -> (r: &'static str)
        ensures
            r@ == if self.nerd_fonts { "✖"@ } else { "[✗]"@ },
    {
        if self.nerd_fonts {
            "✖"
        } else {
            "[✗]"
        }
    }

    pub fn warning(&self) -> (r: &'static str)
        ensures
            r@ == if self.nerd_fonts { "⚠"@ } else { "[!]"@ },
    {
        if self.nerd_fonts {
            "⚠"
        } else {
            "[!]"
        }
    }

    pub fn info(&self) -> (r: &'static str)
        ensures
            r@ == if self.nerd_fonts { "ℹ"@ } else { "[i]"@ },
    {
        if self.nerd_fonts {
            "ℹ"
        } else {
            "[i]"
        }
    }

    pub fn running(&self) -> (r: &'static str)
        ensures
            r@ == if self.nerd_fonts { "\u{f04b}"@ } else { "[*]"@ },
    {
        if self.nerd_fonts {
            "\u{f04b}"
        } else {
            "[*]"
        }
    }

    pub fn stopped(&self) -> (r: &'static str)
        ensures
            r@ == if self.nerd_fonts { "\u{f04d}"@ } else { "[ ]"@ },
    {
        if self.nerd_fonts {
            "\u{f04d}"
        } else {
            "[ ]"
        }
    }

    pub fn git(&self) -> (r: &'static str)
        ensures
            r@ == if self.nerd_fonts { "\u{e702}"@ } else { "[git]"@ },
    {
        if self.nerd_fonts {
            "\u{e702}"
        } else {
            "[git]"
        }
    }

    pub fn database(&self) -> (r: &'static str)
        ensures
            r@ == if self.nerd_fonts { "\u{f1c0}"@ } else { "[db]"@ },
    {
        if self.nerd_fonts {
            "\u{f1c0}"
        } else {
            "[db]"
        }
    }

    pub fn test(&self) -> (r: &'static str)
        ensures
            r@ == if self.nerd_fonts { "\u{f0ae}"@ } else { "[test]"@ },
    {
        if self.nerd_fonts {
            "\u{f0ae}"
        } else {
            "[test]"
        }
    }

    pub fn query(&self) -> (r: &'static str)
        ensures
            r@ == if self.nerd_fonts { "\u{f002}"@ } else { "[sql]"@ },
    {
        if self.nerd_fonts {
            "\u{f002}"
        } else {
            "[sql]"
        }
    }

    pub fn exception(&self) -> (r: &'static str)
        ensures
            r@ == if self.nerd_fonts { "⚠"@ } else { "[err]"@ },
    {
        if self.nerd_fonts {
            "⚠"
        } else {
            "[err]"
        }
    }

    pub fn logs(&self) -> (r: &'static str)
        ensures
            r@ == if self.nerd_fonts { "\u{f0f6}"@ } else { "[log]"@ },
    {
        if self.nerd_fonts {
            "\u{f0f6}"
        } else {
            "[log]"
        }
    }

    pub fn quit(&self) -> (r: &'static str)
        ensures
            r@ == if self.nerd_fonts { "\u{f011}"@ } else { "[q]"@ },
    {
        if self.nerd_fonts {
            "\u{f011}"
        } else {
            "[q]"
        }
    }

    pub fn search(&self) -> (r: &'static str)
        ensures
            r@ == if self.nerd_fonts { "\u{f002}"@ } else { "[/]"@ },
    {
        if self.nerd_fonts {
            "\u{f002}"
        } else {
            "[/]"
        }
    }

    pub fn scroll(&self) -> (r: &'static str)
        ensures
            r@ == if self.nerd_fonts { "↕"@ } else { "[^v]"@ },
    {
        if self.nerd_fonts {
            "↕"
        } else {
            "[^v]"
        }
    }

    pub fn clear(&self) -> (r: &'static str)
        ensures
            r@ == if self.nerd_fonts { "\u{f1f8}"@ } else { "[c]"@ },
    {
        if self.nerd_fonts {
            "\u{f1f8}"
        } else {
            "[c]"
        }
    }

    pub fn toggle(&self) -> (r: &'static str)
        ensures
            r@ == if self.nerd_fonts { "⇄"@ } else { "[t]"@ },
    {
        if self.nerd_fonts {
            "⇄"
        } else {
            "[t]"
        }
    }
}

} // verus!

verus! {

#[derive(Debug, Clone, Copy, PartialEq, Eq, Structural)]
pub enum ThemeName {
    MaterialDesign,
    SolarizedDark,
    Dracula,
    Nord,
    TokyoNight,
    Catppuccin,
}

/// The themes in their fixed order.
pub open spec fn theme_at(i: int) -> ThemeName {
    if i == 0 {
        ThemeName::MaterialDesign
    } else if i == 1 {
        ThemeName::SolarizedDark
    } else if i == 2 {
        ThemeName::Dracula
    } else if i == 3 {
        ThemeName::Nord
    } else if i == 4 {
        ThemeName::TokyoNight
    } else {
        ThemeName::Catppuccin
    }
}

pub open spec fn theme_index(t: ThemeName) -> int {
    match t {
        ThemeName::MaterialDesign => 0,
        ThemeName::SolarizedDark => 1,
        ThemeName::Dracula => 2,
        ThemeName::Nord => 3,
        ThemeName::TokyoNight => 4,
        ThemeName::Catppuccin => 5,
    }
}

pub const N_THEMES: usize = 6;

/// The theme a lower-cased name or alias stands for.
pub open spec fn theme_named(l: Seq<char>) -> Option<ThemeName> {
    if is_text(l, "material") || is_text(l, "material-design") || is_text(l, "md3") {
        Some(ThemeName::MaterialDesign)
    } else if is_text(l, "solarized") || is_text(l, "solarized-dark") {
        Some(ThemeName::SolarizedDark)
    } else if is_text(l, "dracula") {
        Some(ThemeName::Dracula)
    } else if is_text(l, "nord") {
        Some(ThemeName::Nord)
    } else if is_text(l, "tokyo-night") || is_text(l, "tokyo") || is_text(l, "tokyonight") {
        Some(ThemeName::TokyoNight)
    } else if is_text(l, "catppuccin") || is_text(l, "cat") {
        Some(ThemeName::Catppuccin)
    } else {
        None
    }
}

pub open spec fn theme_key(t: ThemeName) -> &'static str {
    match t {
        ThemeName::MaterialDesign => "material",
        ThemeName::SolarizedDark => "solarized",
        ThemeName::Dracula => "dracula",
        ThemeName::Nord => "nord",
        ThemeName::TokyoNight => "tokyo-night",
        ThemeName::Catppuccin => "catppuccin",
    }
}

fn is_word_of(l: &[char], t: &str) -> (r: bool)
    ensures
        r == is_text(l@, t),
{
    let b = chars_of(t);
    crate::text::same_chars(l, &b)
}

impl ThemeName {
    /// The short name of the theme.
    pub fn as_str(&self) -> (r: &'static str)
        ensures
            r@ == theme_key(*self)@,
    {
        match self {
            ThemeName::MaterialDesign => "material",
            ThemeName::SolarizedDark => "solarized",
            ThemeName::Dracula => "dracula",
            ThemeName::Nord => "nord",
            ThemeName::TokyoNight => "tokyo-night",
            ThemeName::Catppuccin => "catppuccin",
        }
    }

    /// The name of the theme for display.
    pub fn display_name(&self) -> (r: &'static str)
        ensures
            r@ == match *self {
                ThemeName::MaterialDesign => "Material Design 3"@,
                ThemeName::SolarizedDark => "Solarized Dark"@,
                ThemeName::Dracula => "Dracula"@,
                ThemeName::Nord => "Nord"@,
                ThemeName::TokyoNight => "Tokyo Night"@,
                ThemeName::Catppuccin => "Catppuccin"@,
            },
    {
        match self {
            ThemeName::MaterialDesign => "Material Design 3",
            ThemeName::SolarizedDark => "Solarized Dark",
            ThemeName::Dracula => "Dracula",
            ThemeName::Nord => "Nord",
            ThemeName::TokyoNight => "Tokyo Night",
            ThemeName::Catppuccin => "Catppuccin",
        }
    }

    /// The theme a name or alias stands for, case aside.
    pub fn from_str(s: &str) -> (r: Option<ThemeName>)
        ensures
            r == theme_named(lower_seq(s@)),
    {
        let c = chars_of(s);
        let lv = to_lower(&c);
        let l = lv.as_slice();
        if is_word_of(l, "material") || is_word_of(l, "material-design") || is_word_of(l, "md3") {
            Some(ThemeName::MaterialDesign)
        } else if is_word_of(l, "solarized") || is_word_of(l, "solarized-dark") {
            Some(ThemeName::SolarizedDark)
        } else if is_word_of(l, "dracula") {
            Some(ThemeName::Dracula)
        } else if is_word_of(l, "nord") {
            Some(ThemeName::Nord)
        } else if is_word_of(l, "tokyo-night") || is_word_of(l, "tokyo") || is_word_of(l, "tokyonight") {
            Some(ThemeName::TokyoNight)
        } else if is_word_of(l, "catppuccin") || is_word_of(l, "cat") {
            Some(ThemeName::Catppuccin)
        } else {
            None
        }
    }

    /// All themes, in their fixed order.
    pub fn all() -> (r: Vec<ThemeName>)
        ensures
            r@.len() == N_THEMES,
            forall|i: int| 0 <= i < N_THEMES ==> #[trigger] r@[i] == theme_at(i),
    {
        let r = vec![
            ThemeName::MaterialDesign,
            ThemeName::SolarizedDark,
            ThemeName::Dracula,
            ThemeName::Nord,
            ThemeName::TokyoNight,
            ThemeName::Catppuccin,
        ];
        r
    }
}

/// The active theme, by its place in the fixed order.
pub struct ThemeManager {
    pub index: usize,
}

impl ThemeManager {
    pub fn new() -> (r: ThemeManager)
        ensures
            r.index == 0,
    {
        ThemeManager { index: 0 }
    }

    /// The active theme; Material Design when the index is out of range.
    pub fn current(&self) -> (r: ThemeName)
        ensures
            r == theme_at(if self.index < N_THEMES { self.index as int } else { 0 }),
    {
        let i = if self.index < N_THEMES { self.index } else { 0 };
        if i == 0 {
            ThemeName::MaterialDesign
        } else if i == 1 {
            ThemeName::SolarizedDark
        } else if i == 2 {
            ThemeName::Dracula
        } else if i == 3 {
            ThemeName::Nord
        } else if i == 4 {
            ThemeName::TokyoNight
        } else {
            ThemeName::Catppuccin
        }
    }

    pub fn set(&mut self, theme: ThemeName)
        ensures
            final(self).index as int == theme_index(theme),
    {
        self.index = match theme {
            ThemeName::MaterialDesign => 0,
            ThemeName::SolarizedDark => 1,
            ThemeName::Dracula => 2,
            ThemeName::Nord => 3,
            ThemeName::TokyoNight => 4,
            ThemeName::Catppuccin => 5,
        };
    }

    /// Moves to the theme after the active one (as `current` reads it),
    /// after the last back to the first.
    pub fn next(&mut self)
        ensures
            final(self).index as int == ((if old(self).index < N_THEMES { old(self).index as int } else { 0 }) + 1)
                % (N_THEMES as int),
            final(self).index < N_THEMES,
    {
        let i = if self.index < N_THEMES { self.index } else { 0 };
        self.index = (i + 1) % N_THEMES;
    }

    /// Activates the theme a name stands for, or says which names exist.
    pub fn set_by_name(&mut self, name: &str) -> (r: Result<ThemeName, String>)
        ensures
            match theme_named(lower_seq(name@)) {
                Some(t) => r == Ok::<ThemeName, String>(t) && final(self).index as int == theme_index(t),
                None => final(self).index == old(self).index && (r matches Err(m) && m@ == "Unknown theme: '"@
                    + name@ + "'. Available themes: material, solarized, dracula, nord, tokyo-night, catppuccin"@),
            },
    {
        match ThemeName::from_str(name) {
            Some(t) => {
                self.set(t);
                Ok(t)
            },
            None => {
                let mut m: Vec<char> = Vec::new();
                push_str(&mut m, "Unknown theme: '");
                push_str(&mut m, name);
                push_str(&mut m, "'. Available themes: material, solarized, dracula, nord, tokyo-night, catppuccin");
                Err(string_of(&m))
            },
        }
    }
}

/// The screens of the dashboard.
#[derive(Debug, Clone, Copy, PartialEq, Eq, Structural)]
pub enum ViewMode {
    Logs,
    QueryAnalysis,
    RequestDetail(usize),
    DatabaseHealth,
    TestResults,
    Exceptions,
    ExceptionDetail(usize),
}

impl ViewMode {
    pub fn as_str(&self) -> (r: &'static str)
        ensures
            r@ == match *self {
                ViewMode::Logs => "Logs"@,
                ViewMode::QueryAnalysis => "Query Analysis"@,
                ViewMode::RequestDetail(_) => "Request Detail"@,
                ViewMode::DatabaseHealth => "Database Health"@,
                ViewMode::TestResults => "Test Results"@,
                ViewMode::Exceptions => "Exceptions"@,
                ViewMode::ExceptionDetail(_) => "Exception Detail"@,
            },
    {
        match self {
            ViewMode::Logs => "Logs",
            ViewMode::QueryAnalysis => "Query Analysis",
            ViewMode::RequestDetail(_) => "Request Detail",
            ViewMode::DatabaseHealth => "Database Health",
            ViewMode::TestResults => "Test Results",
            ViewMode::Exceptions => "Exceptions",
            ViewMode::ExceptionDetail(_) => "Exception Detail",
        }
    }

    /// The views reachable by tab, in order.
    pub fn all_variants() -> (r: Vec<ViewMode>)
        ensures
            r@ == seq![
                ViewMode::Logs,
                ViewMode::QueryAnalysis,
                ViewMode::DatabaseHealth,
                ViewMode::TestResults,
                ViewMode::Exceptions,
            ],
    {
        let r = vec![
            ViewMode::Logs,
            ViewMode::QueryAnalysis,
            ViewMode::DatabaseHealth,
            ViewMode::TestResults,
            ViewMode::Exceptions,
        ];
        assert(r@ =~= seq![
            ViewMode::Logs,
            ViewMode::QueryAnalysis,
            ViewMode::DatabaseHealth,
            ViewMode::TestResults,
            ViewMode::Exceptions,
        ]);
        r
    }

    /// The tab view at `index`.
    pub fn from_index(index: usize) -> (r: Option<ViewMode>)
        ensures
            r == if index == 0 {
                Some(ViewMode::Logs)
            } else if index == 1 {
                Some(ViewMode::QueryAnalysis)
            } else if index == 2 {
                Some(ViewMode::DatabaseHealth)
            } else if index == 3 {
                Some(ViewMode::TestResults)
            } else if index == 4 {
                Some(ViewMode::Exceptions)
            } else {
                None::<ViewMode>
            },
    {
        match index {
            0 => Some(ViewMode::Logs),
            1 => Some(ViewMode::QueryAnalysis),
            2 => Some(ViewMode::DatabaseHealth),
            3 => Some(ViewMode::TestResults),
            4 => Some(ViewMode::Exceptions),
            _ => None,
        }
    }
}

} // verus!

verus! {

/// A keyboard shortcut and what it does.
pub struct KeyBinding {
    pub key: String,
    pub description: String,
}

impl KeyBinding {
    pub fn new(key: &str, description: &str) -> (r: KeyBinding)
        ensures
            r.key@ == key@ && r.description@ == description@,
    {
        KeyBinding { key: key.to_owned(), description: description.to_owned() }
    }
}

/// Collects the shortcuts shown in a footer, in order.
pub struct FooterBuilder {
    pub bindings: Vec<KeyBinding>,
}

pub open spec fn binding_texts(bs: Seq<KeyBinding>) -> Seq<(Seq<char>, Seq<char>)> {
    bs.map_values(|b: KeyBinding| (b.key@, b.description@))
}

/// The footer text: two spaces, then `key | description` for each binding,
/// three spaces apart.
pub open spec fn footer_text(bs: Seq<(Seq<char>, Seq<char>)>) -> Seq<char>
    decreases bs.len(),
{
    if bs.len() == 0 {
        "  "@
    } else {
        footer_text(bs.drop_last()) + (if bs.len() > 1 { "   "@ } else { Seq::empty() }) + bs.last().0 + " | "@
            + bs.last().1
    }
}

impl FooterBuilder {
    pub fn new() -> (r: FooterBuilder)
        ensures
            r.bindings@.len() == 0,
    {
        FooterBuilder { bindings: Vec::new() }
    }

    pub fn add_binding(self, key: &str, description: &str) -> (r: FooterBuilder)
        ensures
            binding_texts(r.bindings@) == binding_texts(self.bindings@).push((key@, description@)),
    {
        let mut b = self;
        let ghost before = binding_texts(b.bindings@);
        b.bindings.push(KeyBinding::new(key, description));
        assert(binding_texts(b.bindings@) =~= before.push((key@, description@)));
        b
    }

    pub fn with_quit(self) -> (r: FooterBuilder)
        ensures
            binding_texts(r.bindings@) == binding_texts(self.bindings@).push(("q"@, "Quit"@)),
    {
        self.add_binding("q", "Quit")
    }

    pub fn with_toggle(self) -> (r: FooterBuilder)
        ensures
            binding_texts(r.bindings@) == binding_texts(self.bindings@).push(("t"@, "Cycle Views"@)),
    {
        self.add_binding("t", "Cycle Views")
    }

    pub fn with_escape(self) -> (r: FooterBuilder)
        ensures
            binding_texts(r.bindings@) == binding_texts(self.bindings@).push(("Esc"@, "Back"@)),
    {
        self.add_binding("Esc", "Back")
    }

    pub fn with_navigation(self) -> (r: FooterBuilder)
        ensures
            binding_texts(r.bindings@) == binding_texts(self.bindings@).push(("↑↓"@, "Navigate"@)),
    {
        self.add_binding("↑↓", "Navigate")
    }

    pub fn with_search(self) -> (r: FooterBuilder)
        ensures
            binding_texts(r.bindings@) == binding_texts(self.bindings@).push(("/"@, "Search"@)),
    {
        self.add_binding("/", "Search")
    }

    /// The footer as plain text.
    pub fn build_text(&self) -> (r: String)
        ensures
            r@ == footer_text(binding_texts(self.bindings@)),
    {
        let mut out: Vec<char> = Vec::new();
        push_str(&mut out, "  ");
        let ghost bt = binding_texts(self.bindings@);
        let mut i: usize = 0;
        while i < self.bindings.len()
            invariant
                i <= self.bindings@.len(),
                bt == binding_texts(self.bindings@),
                out@ == footer_text(bt.take(i as int)),
            decreases self.bindings.len() - i,
        {
            assert(bt.take(i + 1).drop_last() == bt.take(i as int));
            assert(bt.take(i + 1).last() == bt[i as int]);
            if i > 0 {
                push_str(&mut out, "   ");
            }
            push_str(&mut out, self.bindings[i].key.as_str());
            push_str(&mut out, " | ");
            push_str(&mut out, self.bindings[i].description.as_str());
            assert(out@ =~= footer_text(bt.take(i + 1)));
            i += 1;
        }
        assert(bt.take(self.bindings@.len() as int) == bt);
        string_of(&out)
    }
}

} // verus!

verus! {

/// The palette role a value is shown in; the active theme gives each role a color.
#[derive(Debug, Clone, Copy, PartialEq, Eq, Structural)]
pub enum ColorRole {
    SuccessBright,
    Success,
    Info,
    Warning,
    Caution,
    Danger,
    TextSecondary,
}

/// Selects the palette role for scores, durations and status codes.
pub struct Theme;

impl Theme {
    /// The role for a 0-100 health score.
    pub fn health_color(health: u8) -> (r: ColorRole)
        ensures
            r == if 90 <= health <= 100 {
                ColorRole::SuccessBright
            } else if 80 <= health <= 89 {
                ColorRole::Success
            } else if 70 <= health <= 79 {
                ColorRole::Warning
            } else if 40 <= health <= 69 {
                ColorRole::Caution
            } else {
                ColorRole::Danger
            },
    {
        if 90 <= health && health <= 100 {
            ColorRole::SuccessBright
        } else if 80 <= health && health <= 89 {
            ColorRole::Success
        } else if 70 <= health && health <= 79 {
            ColorRole::Warning
        } else if 40 <= health && health <= 69 {
            ColorRole::Caution
        } else {
            ColorRole::Danger
        }
    }

    /// The role for a duration in microseconds.
    pub fn duration_color(duration_us: u64) -> (r: ColorRole)
        ensures
            r == if duration_us < 50_000 {
                ColorRole::Success
            } else if duration_us < 100_000 {
                ColorRole::Warning
            } else if duration_us < 200_000 {
                ColorRole::Caution
            } else {
                ColorRole::Danger
            },
    {
        if duration_us < 50_000 {
            ColorRole::Success
        } else if duration_us < 100_000 {
            ColorRole::Warning
        } else if duration_us < 200_000 {
            ColorRole::Caution
        } else {
            ColorRole::Danger
        }
    }

    /// The role for an HTTP status code, by its class.
    pub fn status_code_color(status: u16) -> (r: ColorRole)
        ensures
            r == if 200 <= status <= 299 {
                ColorRole::Success
            } else if 300 <= status <= 399 {
                ColorRole::Info
            } else if 400 <= status <= 499 {
                ColorRole::Warning
            } else if 500 <= status <= 599 {
                ColorRole::Danger
            } else {
                ColorRole::TextSecondary
            },
    {
        if 200 <= status && status <= 299 {
            ColorRole::Success
        } else if 300 <= status && status <= 399 {
            ColorRole::Info
        } else if 400 <= status && status <= 499 {
            ColorRole::Warning
        } else if 500 <= status && status <= 599 {
            ColorRole::Danger
        } else {
            ColorRole::TextSecondary
        }
    }
}

} // verus!

verus! {

/// The footer of the main views.
pub fn standard_footer() -> (r: String)
    ensures
        r@ == footer_text(seq![("q"@, "Quit"@), ("t"@, "Cycle Views"@), ("Esc"@, "Back"@)]),
{
    let f = FooterBuilder::new().with_quit().with_toggle().with_escape();
    assert(binding_texts(f.bindings@) =~= seq![("q"@, "Quit"@), ("t"@, "Cycle Views"@), ("Esc"@, "Back"@)]);
    f.build_text()
}

/// The footer of list views.
pub fn navigation_footer() -> (r: String)
    ensures
        r@ == footer_text(
            seq![("q"@, "Quit"@), ("t"@, "Cycle Views"@), ("↑↓"@, "Navigate"@), ("Enter"@, "View Details"@)],
        ),
{
    let f = FooterBuilder::new().with_quit().with_toggle().with_navigation().add_binding("Enter", "View Details");
    assert(binding_texts(f.bindings@) =~= seq![
        ("q"@, "Quit"@),
        ("t"@, "Cycle Views"@),
        ("↑↓"@, "Navigate"@),
        ("Enter"@, "View Details"@),
    ]);
    f.build_text()
}

/// The footer of search mode.
pub fn search_footer() -> (r: String)
    ensures
        r@ == footer_text(seq![("Type to search"@, ""@), ("Esc"@, "Cancel"@), ("Enter"@, "Apply"@)]),
{
    let f = FooterBuilder::new().add_binding("Type to search", "").add_binding("Esc", "Cancel").add_binding(
        "Enter",
        "Apply",
    );
    assert(binding_texts(f.bindings@) =~= seq![("Type to search"@, ""@), ("Esc"@, "Cancel"@), ("Enter"@, "Apply"@)]);
    f.build_text()
}

} // verus!

verus! {

/// The eight block heights of a sparkline, lowest first.
pub open spec fn spark_char(i: int) -> char {
    if i <= 0 {
        '▁'
    } else if i == 1 {
        '▂'
    } else if i == 2 {
        '▃'
    } else if i == 3 {
        '▄'
    } else if i == 4 {
        '▅'
    } else if i == 5 {
        '▆'
    } else if i == 6 {
        '▇'
    } else {
        '█'
    }
}

fn spark_char_exec(i: u64) -> (r: char)
    ensures
        r == spark_char(i as int),
{
    if i == 0 {
        '▁'
    } else if i == 1 {
        '▂'
    } else if i == 2 {
        '▃'
    } else if i == 3 {
        '▄'
    } else if i == 4 {
        '▅'
    } else if i == 5 {
        '▆'
    } else if i == 6 {
        '▇'
    } else {
        '█'
    }
}

pub open spec fn seq_max(v: Seq<u64>) -> nat
    decreases v.len(),
{
    if v.len() == 0 {
        0
    } else {
        let m = seq_max(v.drop_last());
        if v.last() as nat > m { v.last() as nat } else { m }
    }
}

proof fn lemma_max_bound(v: Seq<u64>, j: int)
    requires
        0 <= j < v.len(),
    ensures
        v[j] <= seq_max(v),
    decreases v.len(),
{
    if j < v.len() - 1 {
        assert(v.drop_last()[j] == v[j]);
        lemma_max_bound(v.drop_last(), j);
    }
}

/// A row of block characters, one per value, each as high as its share of
/// the largest value.
pub struct Sparkline {
    pub values: Vec<u64>,
}

impl Sparkline {
    pub fn new(values: Vec<u64>) -> (r: Sparkline)
        ensures
            r.values == values,
    {
        Sparkline { values }
    }

    pub fn render(&self) -> (r: String)
        ensures
            r@.len() == self.values@.len(),
            forall|k: int| 0 <= k < r@.len() ==> #[trigger] r@[k] == spark_char(
                if seq_max(self.values@) == 0 { 0int } else { (self.values@[k] as int * 7) / (seq_max(self.values@) as int) },
            ),
    {
        let v = &self.values;
        let mut max: u64 = 0;
        let mut i: usize = 0;
        while i < v.len()
            invariant
                i <= v@.len(),
                max as nat == seq_max(v@.take(i as int)),
            decreases v.len() - i,
        {
            assert(v@.take(i + 1).drop_last() == v@.take(i as int));
            if v[i] > max {
                max = v[i];
            }
            i += 1;
        }
        assert(v@.take(v@.len() as int) == v@);
        let mut out: Vec<char> = Vec::new();
        let mut k: usize = 0;
        while k < v.len()
            invariant
                k <= v@.len(),
                max as nat == seq_max(v@),
                out@.len() == k,
                forall|j: int| 0 <= j < k ==> #[trigger] out@[j] == spark_char(
                    if max == 0 { 0int } else { (v@[j] as int * 7) / (max as int) },
                ),
            decreases v.len() - k,
        {
            if max == 0 {
                out.push('▁');
            } else {
                proof {
                    lemma_max_bound(v@, k as int);
                }
                let q = (v[k] as u128) * 7 / (max as u128);
                assert(q <= 7) by (nonlinear_arith)
                    requires
                        q as int == (v@[k as int] as int * 7) / (max as int),
                        v@[k as int] <= max,
                        max >= 1,
                {
                }
                out.push(spark_char_exec(q as u64));
            }
            k += 1;
        }
        string_of(&out)
    }
}

/// A horizontal bar whose length is the value's share of `width`.
pub struct VisualBar {
    pub value: u64,
    pub max_value: u64,
    pub width: usize,
    pub ch: char,
}

/// The bar length: the value's share of the width, at least one for a
/// positive value, at most the width.
pub open spec fn bar_len(value: u64, max_value: u64, width: usize) -> nat {
    let share = value as nat * width as nat / max_value as nat;
    let at_least = if value > 0 && share < 1 { 1 } else { share };
    if at_least > width { width as nat } else { at_least }
}

impl VisualBar {
    /// A bar for `value` out of `max_value` (read as 1 when 0), `width` long.
    pub fn new(value: u64, max_value: u64, width: usize) -> (r: VisualBar)
        ensures
            r.value == value && r.max_value == (if max_value < 1 { 1 } else { max_value }) && r.width == width
                && r.ch == '▅',
    {
        VisualBar { value, max_value: if max_value < 1 { 1 } else { max_value }, width, ch: '▅' }
    }

    pub fn char(self, ch: char) -> (r: VisualBar)
        ensures
            r.value == self.value && r.max_value == self.max_value && r.width == self.width && r.ch == ch,
    {
        VisualBar { ch, ..self }
    }

    fn length(&self) -> (r: usize)
        requires
            self.max_value >= 1,
        ensures
            r as nat == bar_len(self.value, self.max_value, self.width),
    {
        assert((self.value as u128) * (self.width as u128) <= u128::MAX) by (nonlinear_arith)
            requires
                self.value <= u64::MAX,
                self.width <= u64::MAX,
        {
        }
        let share = (self.value as u128) * (self.width as u128) / (self.max_value as u128);
        let at_least = if self.value > 0 && share < 1 { 1 } else { share };
        if at_least > self.width as u128 {
            self.width
        } else {
            at_least as usize
        }
    }

    /// The bar alone.
    pub fn render_compact(&self) -> (r: String)
        requires
            self.max_value >= 1,
        ensures
            r@ == Seq::new(bar_len(self.value, self.max_value, self.width), |i: int| self.ch),
    {
        let n = self.length();
        let mut out: Vec<char> = Vec::new();
        while out.len() < n
            invariant
                out@.len() <= n,
                out@ == Seq::new(out@.len(), |i: int| self.ch),
            decreases n - out.len(),
        {
            out.push(self.ch);
            assert(out@ =~= Seq::new(out@.len(), |i: int| self.ch));
        }
        string_of(&out)
    }

    /// The bar padded with spaces to the full width.
    pub fn render(&self) -> (r: String)
        requires
            self.max_value >= 1,
        ensures
            r@ == Seq::new(bar_len(self.value, self.max_value, self.width), |i: int| self.ch) + Seq::new(
                (self.width - bar_len(self.value, self.max_value, self.width)) as nat,
                |i: int| ' ',
            ),
    {
        let n = self.length();
        let mut out: Vec<char> = Vec::new();
        while out.len() < n
            invariant
                out@.len() <= n,
                out@ == Seq::new(out@.len(), |i: int| self.ch),
            decreases n - out.len(),
        {
            out.push(self.ch);
            assert(out@ =~= Seq::new(out@.len(), |i: int| self.ch));
        }
        let ghost bar = out@;
        while out.len() < self.width
            invariant
                n <= out@.len() <= self.width,
                bar == Seq::new(n as nat, |i: int| self.ch),
                out@ == bar + Seq::new((out@.len() - n) as nat, |i: int| ' '),
            decreases self.width - out.len(),
        {
            out.push(' ');
            assert(out@ =~= bar + Seq::new((out@.len() - n) as nat, |i: int| ' '));
        }
        string_of(&out)
    }
}

} // verus!
