//! Client settings: the stored options, the guide state, and the settings popup with its
//! fields that cycle through fixed lists of options.

use vstd::prelude::*;

use crate::keymap::Action;
use crate::text::{contains_str, decimal, decimal_string, lowercase, occurs_in, parse_usize, parsed_usize, str_eq, to_lowercase};
use crate::types::{AppScreen, SettingsArrow};

verus! {

/// The stored client settings (each option as the text the settings file keeps).
#[derive(Debug, Clone)]
pub struct AppSettings {
    /// Width of a cell in the standard layout (odd).
    pub standard_cell_width: usize,
    pub bg_color: String,
    pub border_color: String,
    pub guide_group_color: String,
    pub guide_group_fg: String,
    pub guide_same_color: String,
    pub guide_same_fg: String,
    pub cube_scale: String,
    pub show_cube: String,
    pub cube_width: String,
    pub cube_height: String,
    pub cube_aspect: String,
    pub debug_mode: String,
    pub language: String,
    pub naming_mode: String,
    pub blink_highlight: String,
    pub user_value_color: String,
    pub error_value_color: String,
    pub error_bold: String,
    pub guide_owned: String,
    pub guide_enabled: String,
}

impl AppSettings {
    /// The default settings, with the interface language `language`.
    pub fn defaults_for(language: String) -> (r: AppSettings)
        ensures
            r.standard_cell_width == 7,
            r.language@ == language@,
            r.bg_color@ == "black"@,
            r.border_color@ == "cyan"@,
            r.guide_group_color@ == "green"@,
            r.guide_group_fg@ == "white"@,
            r.guide_same_color@ == "blue"@,
            r.guide_same_fg@ == "white"@,
            r.cube_scale@ == "0.38"@,
            r.show_cube@ == "yes"@,
            r.cube_width@ == "20"@,
            r.cube_height@ == "18"@,
            r.cube_aspect@ == "1.0"@,
            r.debug_mode@ == "off"@,
            r.naming_mode@ == "vivid"@,
            r.blink_highlight@ == "off"@,
            r.user_value_color@ == "white"@,
            r.error_value_color@ == "red"@,
            r.error_bold@ == "on"@,
            r.guide_owned@ == "off"@,
            r.guide_enabled@ == "off"@,
    {
        AppSettings {
            standard_cell_width: 7,
            bg_color: String::from_str("black"),
            border_color: String::from_str("cyan"),
            guide_group_color: String::from_str("green"),
            guide_group_fg: String::from_str("white"),
            guide_same_color: String::from_str("blue"),
            guide_same_fg: String::from_str("white"),
            cube_scale: String::from_str("0.38"),
            show_cube: String::from_str("yes"),
            cube_width: String::from_str("20"),
            cube_height: String::from_str("18"),
            cube_aspect: String::from_str("1.0"),
            debug_mode: String::from_str("off"),
            language: language,
            naming_mode: String::from_str("vivid"),
            blink_highlight: String::from_str("off"),
            user_value_color: String::from_str("white"),
            error_value_color: String::from_str("red"),
            error_bold: String::from_str("on"),
            guide_owned: String::from_str("off"),
            guide_enabled: String::from_str("off"),
        }
    }
}

/// The label of settings field `i`.
pub open spec fn field_label(i: int) -> Seq<char> {
    if i == 0 {
        "Cell Width"@
    } else if i == 1 {
        "BG Color"@
    } else if i == 2 {
        "Border Color"@
    } else if i == 3 {
        "Guide-Group BG"@
    } else if i == 4 {
        "Guide-Group FG"@
    } else if i == 5 {
        "Guide-Same BG"@
    } else if i == 6 {
        "Guide-Same FG"@
    } else if i == 7 {
        "Input Color"@
    } else if i == 8 {
        "Error Color"@
    } else if i == 9 {
        "Error Bold"@
    } else if i == 10 {
        "Guide"@
    } else if i == 11 {
        "Cube Scale"@
    } else if i == 12 {
        "Show Cube"@
    } else if i == 13 {
        "Cube Width"@
    } else if i == 14 {
        "Cube Height"@
    } else if i == 15 {
        "Cube Aspect"@
    } else if i == 16 {
        "Debug Mode"@
    } else if i == 17 {
        "Language"@
    } else if i == 18 {
        "Naming Mode"@
    } else if i == 19 {
        "Blink Highlight"@
    } else {
        "Keymap"@
    }
}

/// The options of settings field `i`.
pub open spec fn field_options(i: int) -> Seq<Seq<char>> {
    if i == 0 {
        seq!["3"@, "5"@, "7"@, "9"@, "11"@, "13"@, "15"@]
    } else if i == 1 {
        seq!["black"@, "darkgray"@]
    } else if i == 2 {
        seq!["cyan"@, "white"@, "green"@, "yellow"@]
    } else if i == 3 {
        seq!["green"@, "blue"@, "magenta"@, "red"@]
    } else if i == 4 {
        seq!["white"@, "black"@, "gray"@, "cyan"@, "green"@, "yellow"@, "magenta"@, "red"@, "blue"@]
    } else if i == 5 {
        seq!["green"@, "blue"@, "magenta"@, "red"@]
    } else if i == 6 {
        seq!["white"@, "black"@, "gray"@, "cyan"@, "green"@, "yellow"@, "magenta"@, "red"@, "blue"@]
    } else if i == 7 {
        seq!["white"@, "cyan"@, "magenta"@, "blue"@, "green"@, "yellow"@, "gray"@]
    } else if i == 8 {
        seq!["red"@, "yellow"@, "magenta"@]
    } else if i == 9 {
        seq!["off"@, "on"@]
    } else if i == 10 {
        seq!["off"@, "on"@]
    } else if i == 11 {
        seq!["0.3"@, "0.35"@, "0.38"@, "0.4"@, "0.45"@, "0.5"@]
    } else if i == 12 {
        seq!["yes"@, "no"@]
    } else if i == 13 {
        seq!["16"@, "18"@, "20"@, "22"@, "24"@, "26"@, "28"@, "30"@]
    } else if i == 14 {
        seq!["14"@, "16"@, "18"@, "20"@, "22"@, "24"@, "26"@, "28"@, "30"@]
    } else if i == 15 {
        seq!["0.7"@, "0.85"@, "1.0"@, "1.2"@, "1.4"@, "1.6"@]
    } else if i == 16 {
        seq!["off"@, "on"@]
    } else if i == 17 {
        seq!["zh"@, "en"@, "ja"@]
    } else if i == 18 {
        seq!["vivid"@, "numeric"@]
    } else if i == 19 {
        seq!["off"@, "on"@]
    } else {
        seq!["Configure..."@]
    }
}

/// The current value that settings field `i` shows for `s`.
pub open spec fn field_current(s: AppSettings, i: int) -> Seq<char> {
    if i == 0 {
        decimal(s.standard_cell_width as nat)
    } else if i == 1 {
        s.bg_color@
    } else if i == 2 {
        s.border_color@
    } else if i == 3 {
        s.guide_group_color@
    } else if i == 4 {
        s.guide_group_fg@
    } else if i == 5 {
        s.guide_same_color@
    } else if i == 6 {
        s.guide_same_fg@
    } else if i == 7 {
        s.user_value_color@
    } else if i == 8 {
        s.error_value_color@
    } else if i == 9 {
        s.error_bold@
    } else if i == 10 {
        s.guide_enabled@
    } else if i == 11 {
        s.cube_scale@
    } else if i == 12 {
        s.show_cube@
    } else if i == 13 {
        s.cube_width@
    } else if i == 14 {
        s.cube_height@
    } else if i == 15 {
        s.cube_aspect@
    } else if i == 16 {
        s.debug_mode@
    } else if i == 17 {
        s.language@
    } else if i == 18 {
        s.naming_mode@
    } else if i == 19 {
        s.blink_highlight@
    } else {
        "Configure..."@
    }
}

fn options_0() -> (r: Vec<String>)
    ensures
        r.deep_view() == field_options(0),
{
    let mut v: Vec<String> = Vec::new();
    v.push(String::from_str("3"));
    v.push(String::from_str("5"));
    v.push(String::from_str("7"));
    v.push(String::from_str("9"));
    v.push(String::from_str("11"));
    v.push(String::from_str("13"));
    v.push(String::from_str("15"));
    proof {
        assert(v.deep_view() =~= field_options(0));
    }
    v
}

fn options_1() -> (r: Vec<String>)
    ensures
        r.deep_view() == field_options(1),
{
    let mut v: Vec<String> = Vec::new();
    v.push(String::from_str("black"));
    v.push(String::from_str("darkgray"));
    proof {
        assert(v.deep_view() =~= field_options(1));
    }
    v
}

fn options_2() -> (r: Vec<String>)
    ensures
        r.deep_view() == field_options(2),
{
    let mut v: Vec<String> = Vec::new();
    v.push(String::from_str("cyan"));
    v.push(String::from_str("white"));
    v.push(String::from_str("green"));
    v.push(String::from_str("yellow"));
    proof {
        assert(v.deep_view() =~= field_options(2));
    }
    v
}

fn options_3() -> (r: Vec<String>)
    ensures
        r.deep_view() == field_options(3),
{
    let mut v: Vec<String> = Vec::new();
    v.push(String::from_str("green"));
    v.push(String::from_str("blue"));
    v.push(String::from_str("magenta"));
    v.push(String::from_str("red"));
    proof {
        assert(v.deep_view() =~= field_options(3));
    }
    v
}

fn options_4() -> (r: Vec<String>)
    ensures
        r.deep_view() == field_options(4),
{
    let mut v: Vec<String> = Vec::new();
    v.push(String::from_str("white"));
    v.push(String::from_str("black"));
    v.push(String::from_str("gray"));
    v.push(String::from_str("cyan"));
    v.push(String::from_str("green"));
    v.push(String::from_str("yellow"));
    v.push(String::from_str("magenta"));
    v.push(String::from_str("red"));
    v.push(String::from_str("blue"));
    proof {
        assert(v.deep_view() =~= field_options(4));
    }
    v
}

fn options_5() -> (r: Vec<String>)
    ensures
        r.deep_view() == field_options(5),
{
    let mut v: Vec<String> = Vec::new();
    v.push(String::from_str("green"));
    v.push(String::from_str("blue"));
    v.push(String::from_str("magenta"));
    v.push(String::from_str("red"));
    proof {
        assert(v.deep_view() =~= field_options(5));
    }
    v
}

fn options_6() -> (r: Vec<String>)
    ensures
        r.deep_view() == field_options(6),
{
    let mut v: Vec<String> = Vec::new();
    v.push(String::from_str("white"));
    v.push(String::from_str("black"));
    v.push(String::from_str("gray"));
    v.push(String::from_str("cyan"));
    v.push(String::from_str("green"));
    v.push(String::from_str("yellow"));
    v.push(String::from_str("magenta"));
    v.push(String::from_str("red"));
    v.push(String::from_str("blue"));
    proof {
        assert(v.deep_view() =~= field_options(6));
    }
    v
}

fn options_7() -> (r: Vec<String>)
    ensures
        r.deep_view() == field_options(7),
{
    let mut v: Vec<String> = Vec::new();
    v.push(String::from_str("white"));
    v.push(String::from_str("cyan"));
    v.push(String::from_str("magenta"));
    v.push(String::from_str("blue"));
    v.push(String::from_str("green"));
    v.push(String::from_str("yellow"));
    v.push(String::from_str("gray"));
    proof {
        assert(v.deep_view() =~= field_options(7));
    }
    v
}

fn options_8() -> (r: Vec<String>)
    ensures
        r.deep_view() == field_options(8),
{
    let mut v: Vec<String> = Vec::new();
    v.push(String::from_str("red"));
    v.push(String::from_str("yellow"));
    v.push(String::from_str("magenta"));
    proof {
        assert(v.deep_view() =~= field_options(8));
    }
    v
}

fn options_9() -> (r: Vec<String>)
    ensures
        r.deep_view() == field_options(9),
{
    let mut v: Vec<String> = Vec::new();
    v.push(String::from_str("off"));
    v.push(String::from_str("on"));
    proof {
        assert(v.deep_view() =~= field_options(9));
    }
    v
}

fn options_10() -> (r: Vec<String>)
    ensures
        r.deep_view() == field_options(10),
{
    let mut v: Vec<String> = Vec::new();
    v.push(String::from_str("off"));
    v.push(String::from_str("on"));
    proof {
        assert(v.deep_view() =~= field_options(10));
    }
    v
}

fn options_11() -> (r: Vec<String>)
    ensures
        r.deep_view() == field_options(11),
{
    let mut v: Vec<String> = Vec::new();
    v.push(String::from_str("0.3"));
    v.push(String::from_str("0.35"));
    v.push(String::from_str("0.38"));
    v.push(String::from_str("0.4"));
    v.push(String::from_str("0.45"));
    v.push(String::from_str("0.5"));
    proof {
        assert(v.deep_view() =~= field_options(11));
    }
    v
}

fn options_12() -> (r: Vec<String>)
    ensures
        r.deep_view() == field_options(12),
{
    let mut v: Vec<String> = Vec::new();
    v.push(String::from_str("yes"));
    v.push(String::from_str("no"));
    proof {
        assert(v.deep_view() =~= field_options(12));
    }
    v
}

fn options_13() -> (r: Vec<String>)
    ensures
        r.deep_view() == field_options(13),
{
    let mut v: Vec<String> = Vec::new();
    v.push(String::from_str("16"));
    v.push(String::from_str("18"));
    v.push(String::from_str("20"));
    v.push(String::from_str("22"));
    v.push(String::from_str("24"));
    v.push(String::from_str("26"));
    v.push(String::from_str("28"));
    v.push(String::from_str("30"));
    proof {
        assert(v.deep_view() =~= field_options(13));
    }
    v
}

fn options_14() -> (r: Vec<String>)
    ensures
        r.deep_view() == field_options(14),
{
    let mut v: Vec<String> = Vec::new();
    v.push(String::from_str("14"));
    v.push(String::from_str("16"));
    v.push(String::from_str("18"));
    v.push(String::from_str("20"));
    v.push(String::from_str("22"));
    v.push(String::from_str("24"));
    v.push(String::from_str("26"));
    v.push(String::from_str("28"));
    v.push(String::from_str("30"));
    proof {
        assert(v.deep_view() =~= field_options(14));
    }
    v
}

fn options_15() -> (r: Vec<String>)
    ensures
        r.deep_view() == field_options(15),
{
    let mut v: Vec<String> = Vec::new();
    v.push(String::from_str("0.7"));
    v.push(String::from_str("0.85"));
    v.push(String::from_str("1.0"));
    v.push(String::from_str("1.2"));
    v.push(String::from_str("1.4"));
    v.push(String::from_str("1.6"));
    proof {
        assert(v.deep_view() =~= field_options(15));
    }
    v
}

fn options_16() -> (r: Vec<String>)
    ensures
        r.deep_view() == field_options(16),
{
    let mut v: Vec<String> = Vec::new();
    v.push(String::from_str("off"));
    v.push(String::from_str("on"));
    proof {
        assert(v.deep_view() =~= field_options(16));
    }
    v
}

fn options_17() -> (r: Vec<String>)
    ensures
        r.deep_view() == field_options(17),
{
    let mut v: Vec<String> = Vec::new();
    v.push(String::from_str("zh"));
    v.push(String::from_str("en"));
    v.push(String::from_str("ja"));
    proof {
        assert(v.deep_view() =~= field_options(17));
    }
    v
}

fn options_18() -> (r: Vec<String>)
    ensures
        r.deep_view() == field_options(18),
{
    let mut v: Vec<String> = Vec::new();
    v.push(String::from_str("vivid"));
    v.push(String::from_str("numeric"));
    proof {
        assert(v.deep_view() =~= field_options(18));
    }
    v
}

fn options_19() -> (r: Vec<String>)
    ensures
        r.deep_view() == field_options(19),
{
    let mut v: Vec<String> = Vec::new();
    v.push(String::from_str("off"));
    v.push(String::from_str("on"));
    proof {
        assert(v.deep_view() =~= field_options(19));
    }
    v
}

fn options_20() -> (r: Vec<String>)
    ensures
        r.deep_view() == field_options(20),
{
    let mut v: Vec<String> = Vec::new();
    v.push(String::from_str("Configure..."));
    proof {
        assert(v.deep_view() =~= field_options(20));
    }
    v
}

/// Whether the guide has been bought and whether it is switched on.
#[derive(Debug, Clone, Copy, PartialEq, Eq, Structural)]
pub enum GuideState {
    /// Not bought yet (the default of a new save); the shop offers it.
    Locked,
    /// Bought and switched off.
    Disabled,
    /// Bought and switched on: the board highlights related cells and equal digits.
    Enabled,
}

/// The guide state that settings `s` give.
pub open spec fn guide_state_of(s: AppSettings) -> GuideState {
    if s.guide_owned@ != "on"@ {
        GuideState::Locked
    } else if s.guide_enabled@ == "on"@ {
        GuideState::Enabled
    } else {
        GuideState::Disabled
    }
}

impl AppSettings {
    /// The guide state: locked unless bought, then enabled or disabled by its switch.
    pub fn guide_state(&self) -> (r: GuideState)
        ensures
            r == guide_state_of(*self),
    {
        if !str_eq(self.guide_owned.as_str(), "on") {
            GuideState::Locked
        } else if str_eq(self.guide_enabled.as_str(), "on") {
            GuideState::Enabled
        } else {
            GuideState::Disabled
        }
    }

    /// Whether the guide highlights the board.
    pub fn guide_active(&self) -> (r: bool)
        ensures
            r == (guide_state_of(*self) == GuideState::Enabled),
    {
        match self.guide_state() {
            GuideState::Enabled => true,
            _ => false,
        }
    }
}

/// The interface language that the environment suggests: the time zone, `LANG` and the
/// locale are joined and lowered; "cn" or "zh" in them gives Chinese, else "jp" or "ja"
/// Japanese, else English.
pub open spec fn language_for(tz: Seq<char>, lang: Seq<char>, locale: Seq<char>) -> Seq<char> {
    let check = lowercase(tz + lang + locale);
    if occurs_in(check, "cn"@) || occurs_in(check, "zh"@) {
        "zh"@
    } else if occurs_in(check, "jp"@) || occurs_in(check, "ja"@) {
        "ja"@
    } else {
        "en"@
    }
}

/// The interface language code for the environment values `tz`, `lang` and `locale`.
pub fn detect_language(tz: &str, lang: &str, locale: &str) -> (r: String)
    ensures
        r@ == language_for(tz@, lang@, locale@),
{
    let mut joined = String::from_str(tz);
    joined.append(lang);
    joined.append(locale);
    let check = to_lowercase(joined.as_str());
    proof {
        assert(joined@ == tz@ + lang@ + locale@);
    }
    if contains_str(check.as_str(), "cn") || contains_str(check.as_str(), "zh") {
        String::from_str("zh")
    } else if contains_str(check.as_str(), "jp") || contains_str(check.as_str(), "ja") {
        String::from_str("ja")
    } else {
        String::from_str("en")
    }
}

/// The index of the first option from `i` on that equals `current`, or -1.
pub open spec fn option_index_from(options: Seq<Seq<char>>, current: Seq<char>, i: int) -> int
    decreases options.len() - i,
{
    if i < 0 || i >= options.len() {
        -1
    } else if options[i] == current {
        i
    } else {
        option_index_from(options, current, i + 1)
    }
}

/// The option a field starts on: the first that equals its current value, else the first.
pub open spec fn start_index(options: Seq<Seq<char>>, current: Seq<char>) -> int {
    if option_index_from(options, current, 0) >= 0 {
        option_index_from(options, current, 0)
    } else {
        0
    }
}

/// One field of the settings popup: a label, the shown value and the options it cycles
/// through.
#[derive(Debug, Clone)]
pub struct SettingsField {
    pub label: String,
    pub value: String,
    pub options: Vec<String>,
    pub option_index: usize,
}

/// Whether field `f` has the given label, value and options, and starts on its value.
pub open spec fn field_ok(f: SettingsField, label: Seq<char>, current: Seq<char>, options: Seq<Seq<char>>) -> bool {
    &&& f.label@ == label
    &&& f.value@ == current
    &&& f.options.deep_view() == options
    &&& f.option_index == start_index(options, current)
}

impl SettingsField {
    /// Whether the selected option is one of the options.
    pub open spec fn wf(self) -> bool {
        self.option_index < self.options.len()
    }

    /// A field showing `current`, on the first option equal to it (the first option when
    /// none is).
    pub fn new(label: &str, current: &str, options: Vec<String>) -> (r: SettingsField)
        ensures
            field_ok(r, label@, current@, options.deep_view()),
            options.len() > 0 ==> r.wf(),
    {
        let ghost opts = options.deep_view();
        let mut i: usize = 0;
        while i < options.len()
            invariant
                i <= options@.len(),
                opts == options.deep_view(),
                option_index_from(opts, current@, 0) == option_index_from(opts, current@, i as int),
            decreases options@.len() - i,
        {
            if str_eq(options[i].as_str(), current) {
                proof {
                    assert(opts[i as int] == options@[i as int]@);
                }
                return SettingsField {
                    label: String::from_str(label),
                    value: String::from_str(current),
                    options,
                    option_index: i,
                };
            }
            proof {
                assert(opts[i as int] == options@[i as int]@);
            }
            i = i + 1;
        }
        SettingsField {
            label: String::from_str(label),
            value: String::from_str(current),
            options,
            option_index: 0,
        }
    }

    /// Moves to the next option, from the last back to the first.
    pub fn cycle_next(&mut self)
        requires
            old(self).wf(),
        ensures
            final(self).wf(),
            final(self).option_index == (old(self).option_index + 1) % (old(self).options.len() as int),
            final(self).value@ == old(self).options@[final(self).option_index as int]@,
            final(self).options == old(self).options,
            final(self).label == old(self).label,
    {
        self.option_index = (self.option_index + 1) % self.options.len();
        self.value = self.options[self.option_index].clone();
    }

    /// Moves to the previous option, from the first round to the last.
    pub fn cycle_prev(&mut self)
        requires
            old(self).wf(),
        ensures
            final(self).wf(),
            final(self).option_index == (if old(self).option_index == 0 {
                old(self).options.len() - 1
            } else {
                old(self).option_index - 1
            }),
            final(self).value@ == old(self).options@[final(self).option_index as int]@,
            final(self).options == old(self).options,
            final(self).label == old(self).label,
    {
        if self.option_index == 0 {
            self.option_index = self.options.len() - 1;
        } else {
            self.option_index = self.option_index - 1;
        }
        self.value = self.options[self.option_index].clone();
    }
}

/// Cycling forward and then back returns to the same option.
pub proof fn lemma_cycle_round_trip(index: int, len: int)
    requires
        0 <= index < len,
    ensures
        ({
            let next = (index + 1) % len;
            (if next == 0 {
                len - 1
            } else {
                next - 1
            }) == index
        }),
{
    if index + 1 < len {
        assert((index + 1) % len == index + 1) by (nonlinear_arith)
            requires
                0 <= index + 1 < len,
        ;
    } else {
        assert((index + 1) % len == 0) by (nonlinear_arith)
            requires
                index + 1 == len,
                len > 0,
        ;
    }
}

/// The state of the key binding screen.
#[derive(Debug, Clone)]
pub struct KeymapEditState {
    /// Every bindable action listed.
    pub actions: Vec<Action>,
    /// The selected action.
    pub selected: usize,
    /// Scroll offset.
    pub scroll: u16,
    /// Whether a key press is awaited to rebind the selected action.
    pub awaiting_key: bool,
    /// The action being rebound.
    pub rebinding_index: Option<usize>,
}

/// The settings popup.
pub struct SettingsState {
    pub fields: Vec<SettingsField>,
    pub selected: usize,
    /// Scroll offset of the visible part of the popup.
    pub scroll: u16,
    /// The field under the mouse.
    pub hover_field: Option<usize>,
    /// The arrow under the mouse.
    pub hover_arrow: Option<SettingsArrow>,
    /// Whether the popup is open (it starts closed).
    pub visible: bool,
    /// The key binding screen, when open.
    pub keymap_edit: Option<KeymapEditState>,
    /// The last key binding error, shown in red.
    pub keymap_error: Option<String>,
    /// The debug mode when the popup was filled (to notice a change).
    pub keymap_debug_mode: String,
}

/// The number of settings fields.
pub open spec fn field_count() -> int {
    21
}

/// The width a cell width field stands for: its number, or 7 when it is not one.
pub open spec fn width_of_value(v: Seq<char>) -> usize {
    match parsed_usize(v) {
        Some(n) => n,
        None => 7,
    }
}

/// `s1` is `s0` with the fields' values written in (see `SettingsState::apply_to`).
pub open spec fn settings_written(fields: Seq<SettingsField>, s0: AppSettings, s1: AppSettings) -> bool {
    &&& s1.standard_cell_width == width_of_value(fields[0].value@)
    &&& s1.bg_color@ == fields[1].value@
    &&& s1.border_color@ == fields[2].value@
    &&& s1.guide_group_color@ == fields[3].value@
    &&& s1.guide_group_fg@ == fields[4].value@
    &&& s1.guide_same_color@ == fields[5].value@
    &&& s1.guide_same_fg@ == fields[6].value@
    &&& s1.user_value_color@ == fields[7].value@
    &&& s1.error_value_color@ == fields[8].value@
    &&& s1.error_bold@ == fields[9].value@
    &&& s1.guide_enabled@ == (if s0.guide_owned@ == "on"@ {
        fields[10].value@
    } else {
        "off"@
    })
    &&& s1.cube_scale@ == fields[11].value@
    &&& s1.show_cube@ == fields[12].value@
    &&& s1.cube_width@ == fields[13].value@
    &&& s1.cube_height@ == fields[14].value@
    &&& s1.cube_aspect@ == fields[15].value@
    &&& s1.debug_mode@ == fields[16].value@
    &&& s1.language@ == fields[17].value@
    &&& s1.naming_mode@ == fields[18].value@
    &&& s1.blink_highlight@ == fields[19].value@
    &&& s1.guide_owned == s0.guide_owned
}

impl SettingsState {
    /// The popup for settings `s`: every field on its current value, the first selected,
    /// nothing hovered, closed.
    pub fn from_settings(s: &AppSettings) -> (r: SettingsState)
        ensures
            r.fields@.len() == field_count(),
            forall|i: int|
                0 <= i < field_count() ==> field_ok(
                    #[trigger] r.fields@[i],
                    field_label(i),
                    field_current(*s, i),
                    field_options(i),
                ),
            forall|i: int| 0 <= i < field_count() ==> (#[trigger] r.fields@[i]).wf(),
            r.selected == 0,
            r.scroll == 0,
            r.hover_field is None,
            r.hover_arrow is None,
            !r.visible,
            r.keymap_edit is None,
            r.keymap_error is None,
            r.keymap_debug_mode@ == s.debug_mode@,
    {
        let mut fields: Vec<SettingsField> = Vec::new();
        let width = decimal_string(s.standard_cell_width);
        fields.push(SettingsField::new("Cell Width", width.as_str(), options_0()));
        assert(field_ok(fields@[0], field_label(0), field_current(*s, 0), field_options(0)));
        fields.push(SettingsField::new("BG Color", s.bg_color.as_str(), options_1()));
        assert(field_ok(fields@[1], field_label(1), field_current(*s, 1), field_options(1)));
        fields.push(SettingsField::new("Border Color", s.border_color.as_str(), options_2()));
        assert(field_ok(fields@[2], field_label(2), field_current(*s, 2), field_options(2)));
        fields.push(SettingsField::new("Guide-Group BG", s.guide_group_color.as_str(), options_3()));
        assert(field_ok(fields@[3], field_label(3), field_current(*s, 3), field_options(3)));
        fields.push(SettingsField::new("Guide-Group FG", s.guide_group_fg.as_str(), options_4()));
        assert(field_ok(fields@[4], field_label(4), field_current(*s, 4), field_options(4)));
        fields.push(SettingsField::new("Guide-Same BG", s.guide_same_color.as_str(), options_5()));
        assert(field_ok(fields@[5], field_label(5), field_current(*s, 5), field_options(5)));
        fields.push(SettingsField::new("Guide-Same FG", s.guide_same_fg.as_str(), options_6()));
        assert(field_ok(fields@[6], field_label(6), field_current(*s, 6), field_options(6)));
        fields.push(SettingsField::new("Input Color", s.user_value_color.as_str(), options_7()));
        assert(field_ok(fields@[7], field_label(7), field_current(*s, 7), field_options(7)));
        fields.push(SettingsField::new("Error Color", s.error_value_color.as_str(), options_8()));
        assert(field_ok(fields@[8], field_label(8), field_current(*s, 8), field_options(8)));
        fields.push(SettingsField::new("Error Bold", s.error_bold.as_str(), options_9()));
        assert(field_ok(fields@[9], field_label(9), field_current(*s, 9), field_options(9)));
        fields.push(SettingsField::new("Guide", s.guide_enabled.as_str(), options_10()));
        assert(field_ok(fields@[10], field_label(10), field_current(*s, 10), field_options(10)));
        fields.push(SettingsField::new("Cube Scale", s.cube_scale.as_str(), options_11()));
        assert(field_ok(fields@[11], field_label(11), field_current(*s, 11), field_options(11)));
        fields.push(SettingsField::new("Show Cube", s.show_cube.as_str(), options_12()));
        assert(field_ok(fields@[12], field_label(12), field_current(*s, 12), field_options(12)));
        fields.push(SettingsField::new("Cube Width", s.cube_width.as_str(), options_13()));
        assert(field_ok(fields@[13], field_label(13), field_current(*s, 13), field_options(13)));
        fields.push(SettingsField::new("Cube Height", s.cube_height.as_str(), options_14()));
        assert(field_ok(fields@[14], field_label(14), field_current(*s, 14), field_options(14)));
        fields.push(SettingsField::new("Cube Aspect", s.cube_aspect.as_str(), options_15()));
        assert(field_ok(fields@[15], field_label(15), field_current(*s, 15), field_options(15)));
        fields.push(SettingsField::new("Debug Mode", s.debug_mode.as_str(), options_16()));
        assert(field_ok(fields@[16], field_label(16), field_current(*s, 16), field_options(16)));
        fields.push(SettingsField::new("Language", s.language.as_str(), options_17()));
        assert(field_ok(fields@[17], field_label(17), field_current(*s, 17), field_options(17)));
        fields.push(SettingsField::new("Naming Mode", s.naming_mode.as_str(), options_18()));
        assert(field_ok(fields@[18], field_label(18), field_current(*s, 18), field_options(18)));
        fields.push(SettingsField::new("Blink Highlight", s.blink_highlight.as_str(), options_19()));
        assert(field_ok(fields@[19], field_label(19), field_current(*s, 19), field_options(19)));
        fields.push(SettingsField::new("Keymap", "Configure...", options_20()));
        assert(field_ok(fields@[20], field_label(20), field_current(*s, 20), field_options(20)));
        proof {
            assert forall|i: int| 0 <= i < field_count() implies (#[trigger] fields@[i]).wf() by {
                assert(field_options(i).len() > 0);
                assert(fields@[i].options.deep_view().len() == fields@[i].options@.len());
                lemma_start_index_in_range(field_options(i), field_current(*s, i));
            }
        }
        SettingsState {
            fields,
            selected: 0,
            scroll: 0,
            hover_field: None,
            hover_arrow: None,
            visible: false,
            keymap_edit: None,
            keymap_error: None,
            keymap_debug_mode: s.debug_mode.clone(),
        }
    }

    /// Writes the fields back into `s`: the cell width parsed (7 when it is not a number),
    /// the guide switch only when the guide is bought (else it stays off); the key binding
    /// field is not stored.
    pub fn apply_to(&self, s: &mut AppSettings)
        requires
            self.fields@.len() >= 20,
        ensures
            settings_written(self.fields@, *old(s), *final(s)),
    {
        s.standard_cell_width = match parse_usize(self.fields[0].value.as_str()) {
            Some(n) => n,
            None => 7,
        };
        s.bg_color = self.fields[1].value.clone();
        s.border_color = self.fields[2].value.clone();
        s.guide_group_color = self.fields[3].value.clone();
        s.guide_group_fg = self.fields[4].value.clone();
        s.guide_same_color = self.fields[5].value.clone();
        s.guide_same_fg = self.fields[6].value.clone();
        s.user_value_color = self.fields[7].value.clone();
        s.error_value_color = self.fields[8].value.clone();
        s.error_bold = self.fields[9].value.clone();
        if str_eq(s.guide_owned.as_str(), "on") {
            s.guide_enabled = self.fields[10].value.clone();
        } else {
            s.guide_enabled = String::from_str("off");
        }
        s.cube_scale = self.fields[11].value.clone();
        s.show_cube = self.fields[12].value.clone();
        s.cube_width = self.fields[13].value.clone();
        s.cube_height = self.fields[14].value.clone();
        s.cube_aspect = self.fields[15].value.clone();
        s.debug_mode = self.fields[16].value.clone();
        s.language = self.fields[17].value.clone();
        s.naming_mode = self.fields[18].value.clone();
        s.blink_highlight = self.fields[19].value.clone();
    }
}

/// The option a field starts on is one of its options, when it has any.
proof fn lemma_start_index_in_range(options: Seq<Seq<char>>, current: Seq<char>)
    requires
        options.len() > 0,
    ensures
        0 <= start_index(options, current) < options.len(),
{
    lemma_option_index_from(options, current, 0);
}

proof fn lemma_option_index_from(options: Seq<Seq<char>>, current: Seq<char>, i: int)
    requires
        0 <= i,
    ensures
        option_index_from(options, current, i) == -1 || i <= option_index_from(options, current, i) < options.len(),
    decreases options.len() - i,
{
    if i < options.len() && options[i] != current {
        lemma_option_index_from(options, current, i + 1);
    }
}

/// What a key on the settings popup asks of the client.
#[derive(Debug, Clone, Copy, PartialEq, Eq, Structural)]
pub enum SettingsOutcome {
    /// Nothing to store.
    Stay,
    /// A setting changed: store the settings.
    Changed,
    /// The popup closed: store the settings.
    Closed,
    /// The key binding screen opened.
    OpenKeymap,
}

/// The popup has all its fields, each on one of its options, and one of them selected.
pub open spec fn popup_ok(st: SettingsState) -> bool {
    &&& st.fields@.len() == field_count()
    &&& forall|i: int| 0 <= i < st.fields@.len() ==> (#[trigger] st.fields@[i]).wf()
    &&& st.selected < st.fields@.len()
}

/// Whether field `f` can be switched: the key binding field never, the guide field only
/// once the guide is bought.
pub open spec fn switchable(f: SettingsField, s: AppSettings) -> bool {
    f.label@ != "Keymap"@ && !(f.label@ == "Guide"@ && s.guide_owned@ != "on"@)
}

/// `st1` is `st0` with the selected field cycled one option on (`forward`) or back, and
/// `s1` is `s0` with the fields written in.
pub open spec fn field_cycled(st0: SettingsState, s0: AppSettings, st1: SettingsState, s1: AppSettings, forward: bool) -> bool {
    let i = st0.selected as int;
    let f0 = st0.fields@[i];
    let f1 = st1.fields@[i];
    let n = f0.options.len() as int;
    &&& st1 == SettingsState { fields: st1.fields, ..st0 }
    &&& st1.fields@.len() == st0.fields@.len()
    &&& forall|j: int| 0 <= j < st0.fields@.len() && j != i ==> st1.fields@[j] == st0.fields@[j]
    &&& f1.option_index == (if forward {
        (f0.option_index + 1) % n
    } else if f0.option_index == 0 {
        n - 1
    } else {
        f0.option_index - 1
    })
    &&& f1.value@ == f0.options@[f1.option_index as int]@
    &&& f1.options == f0.options
    &&& f1.label == f0.label
    &&& settings_written(st1.fields@, s0, s1)
}

/// The popup closed: the screen goes back to the menu when the popup stood on its own.
pub open spec fn popup_closed(st0: SettingsState, scr0: AppScreen, st1: SettingsState, scr1: AppScreen) -> bool {
    &&& st1 == SettingsState { visible: false, ..st0 }
    &&& scr1 == (if scr0 == AppScreen::Settings {
        AppScreen::Menu
    } else {
        scr0
    })
}

/// What a key does on the settings popup: up and down move the selection within the
/// fields; left and right switch the selected field back or on (not the key binding field,
/// nor the guide before it is bought), storing the settings; confirm opens the key binding
/// screen from its field and otherwise closes the popup, as cancel does.
pub open spec fn settings_keyed(
    st0: SettingsState,
    s0: AppSettings,
    scr0: AppScreen,
    st1: SettingsState,
    s1: AppSettings,
    scr1: AppScreen,
    a: Option<Action>,
    r: SettingsOutcome,
) -> bool {
    let f = st0.fields@[st0.selected as int];
    let unchanged = st1 == st0 && s1 == s0 && scr1 == scr0;
    match a {
        Some(Action::SettingsUp) => {
            &&& st1 == SettingsState {
                selected: if st0.selected > 0 {
                    (st0.selected - 1) as usize
                } else {
                    0
                },
                ..st0
            }
            &&& s1 == s0 && scr1 == scr0 && r == SettingsOutcome::Stay
        },
        Some(Action::SettingsDown) => {
            &&& st1 == SettingsState {
                selected: if st0.selected + 1 < st0.fields@.len() {
                    (st0.selected + 1) as usize
                } else {
                    st0.selected
                },
                ..st0
            }
            &&& s1 == s0 && scr1 == scr0 && r == SettingsOutcome::Stay
        },
        Some(Action::SettingsLeft) => if switchable(f, s0) {
            field_cycled(st0, s0, st1, s1, false) && scr1 == scr0 && r == SettingsOutcome::Changed
        } else {
            unchanged && r == SettingsOutcome::Stay
        },
        Some(Action::SettingsRight) => if f.label@ == "Keymap"@ {
            st1 == SettingsState { visible: false, ..st0 } && s1 == s0 && scr1 == AppScreen::KeymapConfig
                && r == SettingsOutcome::OpenKeymap
        } else if switchable(f, s0) {
            field_cycled(st0, s0, st1, s1, true) && scr1 == scr0 && r == SettingsOutcome::Changed
        } else {
            unchanged && r == SettingsOutcome::Stay
        },
        Some(Action::Confirm) => if f.label@ == "Keymap"@ {
            st1 == SettingsState { visible: false, ..st0 } && s1 == s0 && scr1 == AppScreen::KeymapConfig
                && r == SettingsOutcome::OpenKeymap
        } else {
            popup_closed(st0, scr0, st1, scr1) && s1 == s0 && r == SettingsOutcome::Closed
        },
        Some(Action::Cancel) => popup_closed(st0, scr0, st1, scr1) && s1 == s0 && r == SettingsOutcome::Closed,
        _ => unchanged && r == SettingsOutcome::Stay,
    }
}

fn cycle_selected(st: &mut SettingsState, s: &mut AppSettings, forward: bool)
    requires
        popup_ok(*old(st)),
    ensures
        popup_ok(*final(st)),
        field_cycled(*old(st), *old(s), *final(st), *final(s), forward),
{
    let i = st.selected;
    if forward {
        st.fields[i].cycle_next();
    } else {
        st.fields[i].cycle_prev();
    }
    st.apply_to(s);
}

/// Handles a key on the settings popup, given the action the key map resolved it to;
/// `screen` is the screen under the popup.
pub fn handle_settings_key(st: &mut SettingsState, s: &mut AppSettings, screen: &mut AppScreen, action: Option<Action>) -> (r: SettingsOutcome)
    requires
        popup_ok(*old(st)),
    ensures
        popup_ok(*final(st)),
        settings_keyed(*old(st), *old(s), *old(screen), *final(st), *final(s), *final(screen), action, r),
{
    let idx = st.selected;
    let is_keymap = str_eq(st.fields[idx].label.as_str(), "Keymap");
    let locked = str_eq(st.fields[idx].label.as_str(), "Guide") && !str_eq(s.guide_owned.as_str(), "on");
    match action {
        Some(Action::SettingsUp) => {
            if st.selected > 0 {
                st.selected = st.selected - 1;
            }
            SettingsOutcome::Stay
        },
        Some(Action::SettingsDown) => {
            if st.selected + 1 < st.fields.len() {
                st.selected = st.selected + 1;
            }
            SettingsOutcome::Stay
        },
        Some(Action::SettingsLeft) => {
            if is_keymap || locked {
                return SettingsOutcome::Stay;
            }
            cycle_selected(st, s, false);
            SettingsOutcome::Changed
        },
        Some(Action::SettingsRight) => {
            if is_keymap {
                st.visible = false;
                *screen = AppScreen::KeymapConfig;
                return SettingsOutcome::OpenKeymap;
            }
            if locked {
                return SettingsOutcome::Stay;
            }
            cycle_selected(st, s, true);
            SettingsOutcome::Changed
        },
        Some(Action::Confirm) => {
            if is_keymap {
                st.visible = false;
                *screen = AppScreen::KeymapConfig;
                return SettingsOutcome::OpenKeymap;
            }
            close_popup(st, screen);
            SettingsOutcome::Closed
        },
        Some(Action::Cancel) => {
            close_popup(st, screen);
            SettingsOutcome::Closed
        },
        _ => SettingsOutcome::Stay,
    }
}

fn close_popup(st: &mut SettingsState, screen: &mut AppScreen)
    ensures
        popup_closed(*old(st), *old(screen), *final(st), *final(screen)),
{
    st.visible = false;
    if *screen == AppScreen::Settings {
        *screen = AppScreen::Menu;
    }
}

/// The part of a settings field under the mouse.
#[derive(Debug, Clone, Copy, PartialEq, Eq, Structural)]
pub enum FieldPart {
    LeftArrow,
    RightArrow,
    /// The label or the value.
    Text,
}

/// A mouse event on the settings popup, with what the popup's layout finds under the
/// pointer: the first field (by its index) and part there, and whether the pointer is
/// inside the popup.
#[derive(Debug, Clone, Copy)]
pub enum SettingsMouse {
    Moved(Option<(usize, FieldPart)>),
    Click(Option<(usize, FieldPart)>, bool),
    ScrollUp,
    ScrollDown,
    Other,
}

/// The arrow shown hovered for a part.
pub open spec fn hover_arrow_of(p: FieldPart) -> Option<SettingsArrow> {
    match p {
        FieldPart::LeftArrow => Some(SettingsArrow::Left),
        FieldPart::RightArrow => Some(SettingsArrow::Right),
        FieldPart::Text => None,
    }
}

/// What a mouse event does on the settings popup: moving marks the field and arrow under
/// the pointer; a click on an arrow selects its field and switches it back or on (not the
/// guide before it is bought), a click on a label or value selects its field, and a click
/// outside the popup closes it; the wheel moves the selection.
pub open spec fn settings_moused(
    st0: SettingsState,
    s0: AppSettings,
    scr0: AppScreen,
    st1: SettingsState,
    s1: AppSettings,
    scr1: AppScreen,
    m: SettingsMouse,
    r: SettingsOutcome,
) -> bool {
    let unchanged = st1 == st0 && s1 == s0 && scr1 == scr0;
    match m {
        SettingsMouse::Moved(found) => {
            &&& st1 == SettingsState {
                hover_field: match found {
                    Some((i, _)) => Some(i),
                    None => None,
                },
                hover_arrow: match found {
                    Some((_, p)) => hover_arrow_of(p),
                    None => None,
                },
                ..st0
            }
            &&& s1 == s0 && scr1 == scr0 && r == SettingsOutcome::Stay
        },
        SettingsMouse::Click(Some((i, p)), _) => {
            let sel = SettingsState { selected: i, ..st0 };
            let f = st0.fields@[i as int];
            let locked = f.label@ == "Guide"@ && s0.guide_owned@ != "on"@;
            if p == FieldPart::Text || locked {
                st1 == sel && s1 == s0 && scr1 == scr0 && r == SettingsOutcome::Stay
            } else {
                field_cycled(sel, s0, st1, s1, p == FieldPart::RightArrow) && scr1 == scr0 && r == SettingsOutcome::Changed
            }
        },
        SettingsMouse::Click(None, inside) => if inside {
            unchanged && r == SettingsOutcome::Stay
        } else {
            popup_closed(st0, scr0, st1, scr1) && s1 == s0 && r == SettingsOutcome::Closed
        },
        SettingsMouse::ScrollUp => settings_keyed(st0, s0, scr0, st1, s1, scr1, Some(Action::SettingsUp), r),
        SettingsMouse::ScrollDown => settings_keyed(st0, s0, scr0, st1, s1, scr1, Some(Action::SettingsDown), r),
        SettingsMouse::Other => unchanged && r == SettingsOutcome::Stay,
    }
}

/// The fields a mouse event names are fields of the popup.
pub open spec fn mouse_fields_ok(st: SettingsState, m: SettingsMouse) -> bool {
    match m {
        SettingsMouse::Moved(Some((i, _))) => i < st.fields@.len(),
        SettingsMouse::Click(Some((i, _)), _) => i < st.fields@.len(),
        _ => true,
    }
}

/// Handles a mouse event on the settings popup; `screen` is the screen under the popup.
pub fn handle_settings_mouse(st: &mut SettingsState, s: &mut AppSettings, screen: &mut AppScreen, m: SettingsMouse) -> (r: SettingsOutcome)
    requires
        popup_ok(*old(st)),
        mouse_fields_ok(*old(st), m),
    ensures
        popup_ok(*final(st)),
        settings_moused(*old(st), *old(s), *old(screen), *final(st), *final(s), *final(screen), m, r),
{
    match m {
        SettingsMouse::Moved(found) => {
            match found {
                Some((i, p)) => {
                    st.hover_field = Some(i);
                    st.hover_arrow = match p {
                        FieldPart::LeftArrow => Some(SettingsArrow::Left),
                        FieldPart::RightArrow => Some(SettingsArrow::Right),
                        FieldPart::Text => None,
                    };
                },
                None => {
                    st.hover_field = None;
                    st.hover_arrow = None;
                },
            }
            SettingsOutcome::Stay
        },
        SettingsMouse::Click(Some((i, p)), _) => {
            st.selected = i;
            let locked = str_eq(st.fields[i].label.as_str(), "Guide") && !str_eq(s.guide_owned.as_str(), "on");
            if p == FieldPart::Text || locked {
                return SettingsOutcome::Stay;
            }
            cycle_selected(st, s, p == FieldPart::RightArrow);
            SettingsOutcome::Changed
        },
        SettingsMouse::Click(None, inside) => {
            if inside {
                return SettingsOutcome::Stay;
            }
            close_popup(st, screen);
            SettingsOutcome::Closed
        },
        SettingsMouse::ScrollUp => handle_settings_key(st, s, screen, Some(Action::SettingsUp)),
        SettingsMouse::ScrollDown => handle_settings_key(st, s, screen, Some(Action::SettingsDown)),
        SettingsMouse::Other => SettingsOutcome::Stay,
    }
}

/// The name setting `i` is stored under, in the order the settings are stored.
pub open spec fn setting_key(i: int) -> Seq<char> {
    if i == 0 {
        "standard_cell_width"@
    } else if i == 1 {
        "bg_color"@
    } else if i == 2 {
        "border_color"@
    } else if i == 3 {
        "guide_group_color"@
    } else if i == 4 {
        "guide_group_fg"@
    } else if i == 5 {
        "guide_same_color"@
    } else if i == 6 {
        "guide_same_fg"@
    } else if i == 7 {
        "cube_scale"@
    } else if i == 8 {
        "show_cube"@
    } else if i == 9 {
        "cube_width"@
    } else if i == 10 {
        "cube_height"@
    } else if i == 11 {
        "cube_aspect"@
    } else if i == 12 {
        "debug_mode"@
    } else if i == 13 {
        "language"@
    } else if i == 14 {
        "naming_mode"@
    } else if i == 15 {
        "blink_highlight"@
    } else if i == 16 {
        "user_value_color"@
    } else if i == 17 {
        "error_value_color"@
    } else if i == 18 {
        "error_bold"@
    } else if i == 19 {
        "guide_owned"@
    } else {
        "guide_enabled"@
    }
}

/// The text setting `i` of `s` is stored as (the cell width in decimal).
pub open spec fn stored_value(s: AppSettings, i: int) -> Seq<char> {
    if i == 0 {
        decimal(s.standard_cell_width as nat)
    } else if i == 1 {
        s.bg_color@
    } else if i == 2 {
        s.border_color@
    } else if i == 3 {
        s.guide_group_color@
    } else if i == 4 {
        s.guide_group_fg@
    } else if i == 5 {
        s.guide_same_color@
    } else if i == 6 {
        s.guide_same_fg@
    } else if i == 7 {
        s.cube_scale@
    } else if i == 8 {
        s.show_cube@
    } else if i == 9 {
        s.cube_width@
    } else if i == 10 {
        s.cube_height@
    } else if i == 11 {
        s.cube_aspect@
    } else if i == 12 {
        s.debug_mode@
    } else if i == 13 {
        s.language@
    } else if i == 14 {
        s.naming_mode@
    } else if i == 15 {
        s.blink_highlight@
    } else if i == 16 {
        s.user_value_color@
    } else if i == 17 {
        s.error_value_color@
    } else if i == 18 {
        s.error_bold@
    } else if i == 19 {
        s.guide_owned@
    } else {
        s.guide_enabled@
    }
}

/// The names the settings are stored under (see `setting_key`).
pub fn setting_keys() -> (r: Vec<&'static str>)
    ensures
        r@.len() == 21,
        forall|i: int| 0 <= i < 21 ==> (#[trigger] r@[i])@ == setting_key(i),
{
    let mut r: Vec<&'static str> = Vec::new();
    r.push("standard_cell_width");
    r.push("bg_color");
    r.push("border_color");
    r.push("guide_group_color");
    r.push("guide_group_fg");
    r.push("guide_same_color");
    r.push("guide_same_fg");
    r.push("cube_scale");
    r.push("show_cube");
    r.push("cube_width");
    r.push("cube_height");
    r.push("cube_aspect");
    r.push("debug_mode");
    r.push("language");
    r.push("naming_mode");
    r.push("blink_highlight");
    r.push("user_value_color");
    r.push("error_value_color");
    r.push("error_bold");
    r.push("guide_owned");
    r.push("guide_enabled");
    proof {
        reveal_strlit("standard_cell_width");
        reveal_strlit("bg_color");
        reveal_strlit("border_color");
        reveal_strlit("guide_group_color");
        reveal_strlit("guide_group_fg");
        reveal_strlit("guide_same_color");
        reveal_strlit("guide_same_fg");
        reveal_strlit("cube_scale");
        reveal_strlit("show_cube");
        reveal_strlit("cube_width");
        reveal_strlit("cube_height");
        reveal_strlit("cube_aspect");
        reveal_strlit("debug_mode");
        reveal_strlit("language");
        reveal_strlit("naming_mode");
        reveal_strlit("blink_highlight");
        reveal_strlit("user_value_color");
        reveal_strlit("error_value_color");
        reveal_strlit("error_bold");
        reveal_strlit("guide_owned");
        reveal_strlit("guide_enabled");
    }
    r
}

impl AppSettings {
    /// The text each setting is stored as, in the order of `setting_key`.
    pub fn stored_values(&self) -> (r: Vec<String>)
        ensures
            r@.len() == 21,
            forall|i: int| 0 <= i < 21 ==> (#[trigger] r@[i])@ == stored_value(*self, i),
    {
        let mut r: Vec<String> = Vec::new();
        r.push(decimal_string(self.standard_cell_width));
        r.push(self.bg_color.clone());
        r.push(self.border_color.clone());
        r.push(self.guide_group_color.clone());
        r.push(self.guide_group_fg.clone());
        r.push(self.guide_same_color.clone());
        r.push(self.guide_same_fg.clone());
        r.push(self.cube_scale.clone());
        r.push(self.show_cube.clone());
        r.push(self.cube_width.clone());
        r.push(self.cube_height.clone());
        r.push(self.cube_aspect.clone());
        r.push(self.debug_mode.clone());
        r.push(self.language.clone());
        r.push(self.naming_mode.clone());
        r.push(self.blink_highlight.clone());
        r.push(self.user_value_color.clone());
        r.push(self.error_value_color.clone());
        r.push(self.error_bold.clone());
        r.push(self.guide_owned.clone());
        r.push(self.guide_enabled.clone());
        r
    }

    /// The settings read back from what was stored: `stored[i]` holds the text stored under
    /// `setting_key(i)`, if any; a missing setting, or a cell width that is not a number,
    /// takes its value from `default`.
    pub fn from_stored(stored: &Vec<Option<String>>, default: AppSettings) -> (r: AppSettings)
        requires
            stored@.len() == 21,
        ensures
            r.standard_cell_width == (match stored@[0] {
                Some(v) => match parsed_usize(v@) {
                    Some(n) => n,
                    None => default.standard_cell_width,
                },
                None => default.standard_cell_width,
            }),
            forall|i: int| 1 <= i < 21 ==> #[trigger] stored_value(r, i) == (match stored@[i] {
                Some(v) => v@,
                None => stored_value(default, i),
            }),
    {
        let width = match &stored[0] {
            Some(v) => match parse_usize(v.as_str()) {
                Some(n) => n,
                None => default.standard_cell_width,
            },
            None => default.standard_cell_width,
        };
        AppSettings {
            standard_cell_width: width,
            bg_color: stored_or(stored, 1, &default.bg_color),
            border_color: stored_or(stored, 2, &default.border_color),
            guide_group_color: stored_or(stored, 3, &default.guide_group_color),
            guide_group_fg: stored_or(stored, 4, &default.guide_group_fg),
            guide_same_color: stored_or(stored, 5, &default.guide_same_color),
            guide_same_fg: stored_or(stored, 6, &default.guide_same_fg),
            cube_scale: stored_or(stored, 7, &default.cube_scale),
            show_cube: stored_or(stored, 8, &default.show_cube),
            cube_width: stored_or(stored, 9, &default.cube_width),
            cube_height: stored_or(stored, 10, &default.cube_height),
            cube_aspect: stored_or(stored, 11, &default.cube_aspect),
            debug_mode: stored_or(stored, 12, &default.debug_mode),
            language: stored_or(stored, 13, &default.language),
            naming_mode: stored_or(stored, 14, &default.naming_mode),
            blink_highlight: stored_or(stored, 15, &default.blink_highlight),
            user_value_color: stored_or(stored, 16, &default.user_value_color),
            error_value_color: stored_or(stored, 17, &default.error_value_color),
            error_bold: stored_or(stored, 18, &default.error_bold),
            guide_owned: stored_or(stored, 19, &default.guide_owned),
            guide_enabled: stored_or(stored, 20, &default.guide_enabled),
        }
    }
}

fn stored_or(stored: &Vec<Option<String>>, i: usize, default: &String) -> (r: String)
    requires
        i < stored@.len(),
    ensures
        r@ == (match stored@[i as int] {
            Some(v) => v@,
            None => default@,
        }),
{
    match &stored[i] {
        Some(v) => v.clone(),
        None => default.clone(),
    }
}

/// Storing the settings and reading back what was stored gives the same settings.
pub proof fn lemma_settings_round_trip(s: AppSettings, default: AppSettings, stored: Seq<Option<String>>)
    requires
        stored.len() == 21,
        forall|i: int| 0 <= i < 21 ==> ((#[trigger] stored[i]) matches Some(v) && v@ == stored_value(s, i)),
    ensures
        ({
            let w = match stored[0] {
                Some(v) => match parsed_usize(v@) {
                    Some(n) => n,
                    None => default.standard_cell_width,
                },
                None => default.standard_cell_width,
            };
            w == s.standard_cell_width
        }),
        forall|i: int| 1 <= i < 21 ==> (match #[trigger] stored[i] {
            Some(v) => v@,
            None => stored_value(default, i),
        }) == stored_value(s, i),
{
    crate::text::lemma_decimal_parses(s.standard_cell_width as nat);
    assert(stored[0] matches Some(v) && v@ == stored_value(s, 0));
    assert(stored_value(s, 0) == crate::text::decimal(s.standard_cell_width as nat));
    assert forall|i: int| 1 <= i < 21 implies (match #[trigger] stored[i] {
        Some(v) => v@,
        None => stored_value(default, i),
    }) == stored_value(s, i) by {
        assert(stored[i] matches Some(v) && v@ == stored_value(s, i));
    }
}

/// What a key on the key binding screen asks of the client.
#[derive(Debug, Clone, Copy, PartialEq, Eq, Structural)]
pub enum KeymapEditOutcome {
    Stay,
    /// A rebinding was tried: store the key map.
    Rebound,
    /// Leave the key binding screen.
    Closed,
}

/// What a key does on the key binding screen: while a key is awaited, Esc gives up and any
/// other key (with its modifiers) rebinds the chosen action (a refused rebinding leaves the
/// key map as it was); otherwise up and down move the selection within the actions,
/// confirm starts waiting for a key for the selected action, and cancel leaves.
pub open spec fn keymap_edit_keyed(
    e0: KeymapEditState,
    k0: crate::keymap::Keymap,
    e1: KeymapEditState,
    k1: crate::keymap::Keymap,
    key: crate::keymap::InputKey,
    mods: crate::keymap::ModKey,
    a: Option<Action>,
    r: KeymapEditOutcome,
) -> bool {
    if e0.awaiting_key {
        let done = KeymapEditState { awaiting_key: false, rebinding_index: None, ..e0 };
        if key == crate::keymap::InputKey::Esc {
            e1 == done && k1 == k0 && r == KeymapEditOutcome::Stay
        } else {
            &&& e1 == done
            &&& match e0.rebinding_index {
                Some(i) => if i < e0.actions@.len() {
                    r == KeymapEditOutcome::Rebound && crate::keymap::rebound(
                        k0,
                        k1,
                        e0.actions@[i as int],
                        crate::keymap::key_of_input(key),
                        mods,
                    )
                } else {
                    k1 == k0 && r == KeymapEditOutcome::Stay
                },
                None => k1 == k0 && r == KeymapEditOutcome::Stay,
            }
        }
    } else {
        &&& k1 == k0
        &&& match a {
            Some(Action::SettingsUp) => e1 == KeymapEditState {
                selected: if e0.selected > 0 {
                    (e0.selected - 1) as usize
                } else {
                    0
                },
                ..e0
            } && r == KeymapEditOutcome::Stay,
            Some(Action::SettingsDown) => e1 == KeymapEditState {
                selected: if e0.selected + 1 < e0.actions@.len() {
                    (e0.selected + 1) as usize
                } else {
                    e0.selected
                },
                ..e0
            } && r == KeymapEditOutcome::Stay,
            Some(Action::Confirm) => e1 == KeymapEditState { awaiting_key: true, rebinding_index: Some(e0.selected), ..e0 }
                && r == KeymapEditOutcome::Stay,
            Some(Action::Cancel) => e1 == e0 && r == KeymapEditOutcome::Closed,
            _ => e1 == e0 && r == KeymapEditOutcome::Stay,
        }
    }
}

/// Handles a key on the key binding screen: `key` and `mods` as reported, `action` what the
/// key map resolved them to.
pub fn handle_keymap_edit_key(
    edit: &mut KeymapEditState,
    keymap: &mut crate::keymap::Keymap,
    key: crate::keymap::InputKey,
    mods: crate::keymap::ModKey,
    action: Option<Action>,
) -> (r: KeymapEditOutcome)
    ensures
        keymap_edit_keyed(*old(edit), *old(keymap), *final(edit), *final(keymap), key, mods, action, r),
{
    if edit.awaiting_key {
        let mut r = KeymapEditOutcome::Stay;
        if key != crate::keymap::InputKey::Esc {
            if let Some(i) = edit.rebinding_index {
                if i < edit.actions.len() {
                    let _ = keymap.rebind(edit.actions[i], crate::keymap::Key::from_input(key), mods);
                    r = KeymapEditOutcome::Rebound;
                }
            }
        }
        edit.awaiting_key = false;
        edit.rebinding_index = None;
        return r;
    }
    match action {
        Some(Action::SettingsUp) => {
            if edit.selected > 0 {
                edit.selected = edit.selected - 1;
            }
            KeymapEditOutcome::Stay
        },
        Some(Action::SettingsDown) => {
            if edit.selected < edit.actions.len() && edit.selected + 1 < edit.actions.len() {
                edit.selected = edit.selected + 1;
            }
            KeymapEditOutcome::Stay
        },
        Some(Action::Confirm) => {
            edit.awaiting_key = true;
            edit.rebinding_index = Some(edit.selected);
            KeymapEditOutcome::Stay
        },
        Some(Action::Cancel) => KeymapEditOutcome::Closed,
        _ => KeymapEditOutcome::Stay,
    }
}

} // verus!
