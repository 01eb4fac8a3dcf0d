//! The settings of the bar as a whole.

use vstd::prelude::*;

use crate::color::{
    is_canonical, is_lower_hex, law_normal_form_is_stable, normal_form, normalize_hex, separable,
};
use crate::number::{decimal, decimal_of, number, read_number};
use crate::text::{is_text, string_of};

verus! {

/// The settings of the bar.
#[derive(Clone)]
pub struct Globals {
    pub height: u32,
    pub top_offset: u32,
    pub bg: String,
    pub fg: String,
    pub gap: u32,
    /// Empty for the default font.
    pub font: String,
    /// 0 for the default width.
    pub char_width: u32,
    /// 0 for the default baseline.
    pub baseline: u32,
}

/// What [`Globals`] hold.
#[verifier::ext_equal]
pub struct GlobalsView {
    pub height: u32,
    pub top_offset: u32,
    pub bg: Seq<char>,
    pub fg: Seq<char>,
    pub gap: u32,
    pub font: Seq<char>,
    pub char_width: u32,
    pub baseline: u32,
}

impl View for Globals {
    type V = GlobalsView;

    open spec fn view(&self) -> GlobalsView {
        GlobalsView {
            height: self.height,
            top_offset: self.top_offset,
            bg: self.bg@,
            fg: self.fg@,
            gap: self.gap,
            font: self.font@,
            char_width: self.char_width,
            baseline: self.baseline,
        }
    }
}

/// The name of a setting.
#[derive(Clone, Copy, PartialEq, Eq, Structural, Debug)]
pub enum GlobalKey {
    Height,
    TopOffset,
    Bg,
    Fg,
    Gap,
    Font,
    CharWidth,
    Baseline,
}

/// The number of settings.
pub const KEY_COUNT: usize = 8;

/// The setting at a position of the list.
pub open spec fn key_at(i: int) -> Option<GlobalKey> {
    if i == 0 {
        Some(GlobalKey::Height)
    } else if i == 1 {
        Some(GlobalKey::TopOffset)
    } else if i == 2 {
        Some(GlobalKey::Bg)
    } else if i == 3 {
        Some(GlobalKey::Fg)
    } else if i == 4 {
        Some(GlobalKey::Gap)
    } else if i == 5 {
        Some(GlobalKey::Font)
    } else if i == 6 {
        Some(GlobalKey::CharWidth)
    } else if i == 7 {
        Some(GlobalKey::Baseline)
    } else {
        None
    }
}

/// The word for a setting in the file.
pub open spec fn key_name(k: GlobalKey) -> Seq<char> {
    match k {
        GlobalKey::Height => "height"@,
        GlobalKey::TopOffset => "top_offset"@,
        GlobalKey::Bg => "bg"@,
        GlobalKey::Fg => "fg"@,
        GlobalKey::Gap => "gap"@,
        GlobalKey::Font => "font"@,
        GlobalKey::CharWidth => "char_width"@,
        GlobalKey::Baseline => "baseline"@,
    }
}

/// What a setting is for.
pub open spec fn key_help(k: GlobalKey) -> Seq<char> {
    match k {
        GlobalKey::Height => "bar height in pixels"@,
        GlobalKey::TopOffset => "vertical offset from top of screen 0 (px)"@,
        GlobalKey::Bg => "bar background colour (#RRGGBB)"@,
        GlobalKey::Fg => "default segment foreground (#RRGGBB)"@,
        GlobalKey::Gap => "default gap between segments (px)"@,
        GlobalKey::Font => "X core font name (empty = strip default)"@,
        GlobalKey::CharWidth => "monospace cell width override (0 = default)"@,
        GlobalKey::Baseline => "font baseline offset (0 = default)"@,
    }
}

/// The setting that a word names.
pub open spec fn key_named(word: Seq<char>) -> Option<GlobalKey> {
    if word == "height"@ {
        Some(GlobalKey::Height)
    } else if word == "top_offset"@ {
        Some(GlobalKey::TopOffset)
    } else if word == "bg"@ {
        Some(GlobalKey::Bg)
    } else if word == "fg"@ {
        Some(GlobalKey::Fg)
    } else if word == "gap"@ {
        Some(GlobalKey::Gap)
    } else if word == "font"@ {
        Some(GlobalKey::Font)
    } else if word == "char_width"@ {
        Some(GlobalKey::CharWidth)
    } else if word == "baseline"@ {
        Some(GlobalKey::Baseline)
    } else {
        None
    }
}

/// Whether a setting is a colour.
pub open spec fn is_color_key(k: GlobalKey) -> bool {
    k == GlobalKey::Bg || k == GlobalKey::Fg
}

/// The settings after a number was given for one of them.
pub open spec fn with_number(g: GlobalsView, k: GlobalKey, n: u32) -> GlobalsView {
    match k {
        GlobalKey::Height => GlobalsView { height: n, ..g },
        GlobalKey::TopOffset => GlobalsView { top_offset: n, ..g },
        GlobalKey::Gap => GlobalsView { gap: n, ..g },
        GlobalKey::CharWidth => GlobalsView { char_width: n, ..g },
        GlobalKey::Baseline => GlobalsView { baseline: n, ..g },
        _ => g,
    }
}

/// The settings after a text was given for one of them.
pub open spec fn with_text(g: GlobalsView, k: GlobalKey, t: Seq<char>) -> GlobalsView {
    match k {
        GlobalKey::Bg => GlobalsView { bg: t, ..g },
        GlobalKey::Fg => GlobalsView { fg: t, ..g },
        GlobalKey::Font => GlobalsView { font: t, ..g },
        _ => g,
    }
}

/// The settings after `key = val`. A number must be readable and a colour must
/// be one, otherwise the setting keeps its value.
pub open spec fn with_value(g: GlobalsView, k: GlobalKey, val: Seq<char>) -> GlobalsView {
    if k == GlobalKey::Font {
        with_text(g, k, val)
    } else if is_color_key(k) {
        match normal_form(val) {
            Some(code) => with_text(g, k, code),
            None => g,
        }
    } else {
        match number(val) {
            Some(n) => with_number(g, k, n),
            None => g,
        }
    }
}

/// The number of a setting that is one.
pub open spec fn number_of(g: GlobalsView, k: GlobalKey) -> u32 {
    match k {
        GlobalKey::Height => g.height,
        GlobalKey::TopOffset => g.top_offset,
        GlobalKey::Gap => g.gap,
        GlobalKey::CharWidth => g.char_width,
        GlobalKey::Baseline => g.baseline,
        _ => 0,
    }
}

/// The text of a setting: a colour code, a font name, or a numeral.
pub open spec fn text_of(g: GlobalsView, k: GlobalKey) -> Seq<char> {
    match k {
        GlobalKey::Bg => g.bg,
        GlobalKey::Fg => g.fg,
        GlobalKey::Font => g.font,
        _ => decimal(number_of(g, k) as nat),
    }
}

/// Whether the colours are canonical codes.
pub open spec fn globals_wf(g: GlobalsView) -> bool {
    is_canonical(g.bg) && is_canonical(g.fg)
}

/// The settings of a bar without a file.
pub open spec fn default_globals() -> GlobalsView {
    GlobalsView {
        height: 22,
        top_offset: 0,
        bg: "#000000"@,
        fg: "#cccccc"@,
        gap: 8,
        font: Seq::empty(),
        char_width: 0,
        baseline: 0,
    }
}

/// The default colours are canonical.
pub proof fn law_default_globals_wf()
    ensures
        globals_wf(default_globals()),
{
    reveal_strlit("#000000");
    reveal_strlit("#cccccc");
    assert forall|i: int| 1 <= i < 7 implies is_lower_hex(#[trigger] "#000000"@[i]) by {}
    assert forall|i: int| 1 <= i < 7 implies is_lower_hex(#[trigger] "#cccccc"@[i]) by {}
}

/// Giving a setting a value keeps the colours canonical.
pub proof fn law_with_value_keeps_wf(g: GlobalsView, k: GlobalKey, val: Seq<char>)
    requires
        globals_wf(g),
    ensures
        globals_wf(with_value(g, k, val)),
{
    if is_color_key(k) && normal_form(val) is Some {
        law_normal_form_is_stable(val);
    }
}

/// Every setting is found under its own name, and at one position.
pub proof fn law_keys_are_named(k: GlobalKey)
    ensures
        key_named(key_name(k)) == Some(k),
        exists|i: int| 0 <= i < KEY_COUNT && key_at(i) == Some(k),
        forall|i: int, j: int| key_at(i) == Some(k) && key_at(j) == Some(k) ==> i == j,
        forall|i: int| key_at(i) is Some <==> 0 <= i < KEY_COUNT,
{
    reveal_strlit("height");
    reveal_strlit("top_offset");
    reveal_strlit("bg");
    reveal_strlit("fg");
    reveal_strlit("gap");
    reveal_strlit("font");
    reveal_strlit("char_width");
    reveal_strlit("baseline");
    assert("bg"@[0] == 'b' && "fg"@[0] == 'f');
    assert("height"@.len() == 6 && "top_offset"@.len() == 10 && "bg"@.len() == 2);
    assert("fg"@.len() == 2 && "gap"@.len() == 3 && "font"@.len() == 4);
    assert("char_width"@.len() == 10 && "baseline"@.len() == 8);
    assert("char_width"@[0] == 'c' && "top_offset"@[0] == 't');
    let i: int = match k {
        GlobalKey::Height => 0,
        GlobalKey::TopOffset => 1,
        GlobalKey::Bg => 2,
        GlobalKey::Fg => 3,
        GlobalKey::Gap => 4,
        GlobalKey::Font => 5,
        GlobalKey::CharWidth => 6,
        GlobalKey::Baseline => 7,
    };
    assert(key_at(i) == Some(k));
}

impl GlobalKey {
    /// The setting at a position of the list.
    pub fn at(i: usize) -> (k: Option<GlobalKey>)
        ensures
            k == key_at(i as int),
    {
        match i {
            0 => Some(GlobalKey::Height),
            1 => Some(GlobalKey::TopOffset),
            2 => Some(GlobalKey::Bg),
            3 => Some(GlobalKey::Fg),
            4 => Some(GlobalKey::Gap),
            5 => Some(GlobalKey::Font),
            6 => Some(GlobalKey::CharWidth),
            7 => Some(GlobalKey::Baseline),
            _ => None,
        }
    }

    /// The word for a setting.
    pub fn name(self) -> (w: &'static str)
        ensures
            w@ == key_name(self),
    {
        match self {
            GlobalKey::Height => "height",
            GlobalKey::TopOffset => "top_offset",
            GlobalKey::Bg => "bg",
            GlobalKey::Fg => "fg",
            GlobalKey::Gap => "gap",
            GlobalKey::Font => "font",
            GlobalKey::CharWidth => "char_width",
            GlobalKey::Baseline => "baseline",
        }
    }

    /// What a setting is for.
    pub fn help(self) -> (w: &'static str)
        ensures
            w@ == key_help(self),
    {
        match self {
            GlobalKey::Height => "bar height in pixels",
            GlobalKey::TopOffset => "vertical offset from top of screen 0 (px)",
            GlobalKey::Bg => "bar background colour (#RRGGBB)",
            GlobalKey::Fg => "default segment foreground (#RRGGBB)",
            GlobalKey::Gap => "default gap between segments (px)",
            GlobalKey::Font => "X core font name (empty = strip default)",
            GlobalKey::CharWidth => "monospace cell width override (0 = default)",
            GlobalKey::Baseline => "font baseline offset (0 = default)",
        }
    }

    /// The setting that a word names.
    pub fn named(word: &[char]) -> (k: Option<GlobalKey>)
        ensures
            k == key_named(word@),
    {
        if is_text(word, "height") {
            Some(GlobalKey::Height)
        } else if is_text(word, "top_offset") {
            Some(GlobalKey::TopOffset)
        } else if is_text(word, "bg") {
            Some(GlobalKey::Bg)
        } else if is_text(word, "fg") {
            Some(GlobalKey::Fg)
        } else if is_text(word, "gap") {
            Some(GlobalKey::Gap)
        } else if is_text(word, "font") {
            Some(GlobalKey::Font)
        } else if is_text(word, "char_width") {
            Some(GlobalKey::CharWidth)
        } else if is_text(word, "baseline") {
            Some(GlobalKey::Baseline)
        } else {
            None
        }
    }
}

impl Default for Globals {
    fn default() -> (g: Globals)
        ensures
            g@ == default_globals(),
    {
        Globals {
            height: 22,
            top_offset: 0,
            bg: "#000000".to_owned(),
            fg: "#cccccc".to_owned(),
            gap: 8,
            font: String::new(),
            char_width: 0,
            baseline: 0,
        }
    }
}

impl Globals {
    /// Sets a setting that is a number; leaves the others alone.
    pub fn set_number(&mut self, k: GlobalKey, n: u32)
        ensures
            final(self)@ == with_number(old(self)@, k, n),
    {
        match k {
            GlobalKey::Height => self.height = n,
            GlobalKey::TopOffset => self.top_offset = n,
            GlobalKey::Gap => self.gap = n,
            GlobalKey::CharWidth => self.char_width = n,
            GlobalKey::Baseline => self.baseline = n,
            _ => {},
        }
    }

    /// Sets a setting that is a text; leaves the others alone.
    pub fn set_text(&mut self, k: GlobalKey, t: String)
        ensures
            final(self)@ == with_text(old(self)@, k, t@),
    {
        match k {
            GlobalKey::Bg => self.bg = t,
            GlobalKey::Fg => self.fg = t,
            GlobalKey::Font => self.font = t,
            _ => {},
        }
    }

    /// Applies `key = val`.
    pub fn set(&mut self, k: GlobalKey, val: &[char])
        requires
            is_color_key(k) ==> separable(val@),
        ensures
            final(self)@ == with_value(old(self)@, k, val@),
    {
        match k {
            GlobalKey::Font => self.set_text(k, string_of(val)),
            GlobalKey::Bg | GlobalKey::Fg => {
                let code = string_of(val);
                if let Some(code) = normalize_hex(code.as_str()) {
                    self.set_text(k, code);
                }
            },
            _ => {
                if let Some(n) = read_number(val) {
                    self.set_number(k, n);
                }
            },
        }
    }

    /// The number of a setting that is one, otherwise 0.
    pub fn number(&self, k: GlobalKey) -> (n: u32)
        ensures
            n == number_of(self@, k),
    {
        match k {
            GlobalKey::Height => self.height,
            GlobalKey::TopOffset => self.top_offset,
            GlobalKey::Gap => self.gap,
            GlobalKey::CharWidth => self.char_width,
            GlobalKey::Baseline => self.baseline,
            _ => 0,
        }
    }

    /// The text of a setting.
    pub fn text(&self, k: GlobalKey) -> (t: String)
        ensures
            t@ == text_of(self@, k),
    {
        match k {
            GlobalKey::Bg => self.bg.clone(),
            GlobalKey::Fg => self.fg.clone(),
            GlobalKey::Font => self.font.clone(),
            _ => decimal_of(self.number(k)),
        }
    }
}

} // verus!
