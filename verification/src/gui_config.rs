//! Appearance and behaviour settings of the candidate window, and the colour
//! themes that can be laid over them.
//!
//! The window's opacity is a fraction and is kept by the caller beside these
//! settings; everything else the window is drawn with stands here.
use vstd::prelude::*;

use crate::text::{str_eq, str_to_string};

verus! {

/// The window itself.
#[derive(Debug, Clone)]
pub struct WindowConfig {
    /// Background colour (`#RRGGBB`).
    pub background_color: String,
    /// Border colour.
    pub border_color: String,
    /// Border width.
    pub border_width: u32,
    /// Corner radius.
    pub border_radius: u32,
    /// Inner padding.
    pub padding: u32,
    /// Font families, comma separated.
    pub font_family: String,
    /// Font size.
    pub font_size: u32,
    /// OpenType feature settings (kept as data).
    pub font_feature_settings: String,
    /// Whether the window stays on top.
    pub always_on_top: bool,
}

impl Default for WindowConfig {
    /// White window with a light grey border.
    fn default() -> (r: Self)
        ensures
            r.background_color@ == "#FFFFFF"@,
            r.border_color@ == "#CCCCCC"@,
            r.border_width == 1,
            r.border_radius == 4,
            r.padding == 8,
            r.font_family@ == "Microsoft YaHei, SimHei, sans-serif"@,
            r.font_size == 14,
            r.font_feature_settings@ == Seq::<char>::empty(),
            r.always_on_top,
    {
        WindowConfig {
            background_color: str_to_string("#FFFFFF"),
            border_color: str_to_string("#CCCCCC"),
            border_width: 1,
            border_radius: 4,
            padding: 8,
            font_family: str_to_string("Microsoft YaHei, SimHei, sans-serif"),
            font_size: 14,
            font_feature_settings: String::new(),
            always_on_top: true,
        }
    }
}

/// The bar that shows the spelling typed so far.
#[derive(Debug, Clone)]
pub struct BufferBarConfig {
    /// Whether the bar is shown.
    pub visible: bool,
    /// Text colour.
    pub text_color: String,
    /// Background colour.
    pub background_color: String,
    /// Font size.
    pub font_size: u32,
    /// Height.
    pub height: u32,
    /// Alignment: left, center or right.
    pub align: String,
}

impl Default for BufferBarConfig {
    /// Shown, dark text on light grey, left aligned.
    fn default() -> (r: Self)
        ensures
            r.visible,
            r.text_color@ == "#333333"@,
            r.background_color@ == "#F5F5F5"@,
            r.font_size == 14,
            r.height == 28,
            r.align@ == "left"@,
    {
        BufferBarConfig {
            visible: true,
            text_color: str_to_string("#333333"),
            background_color: str_to_string("#F5F5F5"),
            font_size: 14,
            height: 28,
            align: str_to_string("left"),
        }
    }
}

/// The bar that holds the candidates.
#[derive(Debug, Clone)]
pub struct CandidateBarConfig {
    /// Background colour.
    pub background_color: String,
    /// Space between candidates.
    pub spacing: u32,
    /// Layout: horizontal or vertical.
    pub layout: String,
}

impl Default for CandidateBarConfig {
    /// White, horizontal, 4 apart.
    fn default() -> (r: Self)
        ensures
            r.background_color@ == "#FFFFFF"@,
            r.spacing == 4,
            r.layout@ == "horizontal"@,
    {
        CandidateBarConfig {
            background_color: str_to_string("#FFFFFF"),
            spacing: 4,
            layout: str_to_string("horizontal"),
        }
    }
}

/// One candidate in the bar.
#[derive(Debug, Clone)]
pub struct CandidateItemConfig {
    /// Text colour.
    pub text_color: String,
    /// Text colour of the selected candidate.
    pub selected_text_color: String,
    /// Background colour of the selected candidate.
    pub selected_background_color: String,
    /// Corner radius of the selection.
    pub selected_border_radius: u32,
    /// Horizontal padding.
    pub padding_h: u32,
    /// Vertical padding.
    pub padding_v: u32,
    /// Font size.
    pub font_size: u32,
    /// Whether the number before a candidate is shown.
    pub show_index: bool,
    /// Colour of that number.
    pub index_color: String,
}

impl Default for CandidateItemConfig {
    /// Black text, white on blue when selected, numbered.
    fn default() -> (r: Self)
        ensures
            r.text_color@ == "#000000"@,
            r.selected_text_color@ == "#FFFFFF"@,
            r.selected_background_color@ == "#0078D4"@,
            r.selected_border_radius == 4,
            r.padding_h == 6,
            r.padding_v == 2,
            r.font_size == 15,
            r.show_index,
            r.index_color@ == "#888888"@,
    {
        CandidateItemConfig {
            text_color: str_to_string("#000000"),
            selected_text_color: str_to_string("#FFFFFF"),
            selected_background_color: str_to_string("#0078D4"),
            selected_border_radius: 4,
            padding_h: 6,
            padding_v: 2,
            font_size: 15,
            show_index: true,
            index_color: str_to_string("#888888"),
        }
    }
}

/// The page arrows and the page information.
#[derive(Debug, Clone)]
pub struct PaginationConfig {
    /// Whether the arrows are shown.
    pub visible: bool,
    /// Where they stand: both, left or right.
    pub position: String,
    /// Previous-page icon: text, or an SVG path or document.
    pub prev_icon: String,
    /// Next-page icon.
    pub next_icon: String,
    /// Colour of a text icon.
    pub icon_color: String,
    /// Colour of the page information.
    pub info_color: String,
}

impl Default for PaginationConfig {
    /// Shown at both ends with triangle arrows.
    fn default() -> (r: Self)
        ensures
            r.visible,
            r.position@ == "both"@,
            r.prev_icon@ == "◀"@,
            r.next_icon@ == "▶"@,
            r.icon_color@ == "#666666"@,
            r.info_color@ == "#999999"@,
    {
        PaginationConfig {
            visible: true,
            position: str_to_string("both"),
            prev_icon: str_to_string("◀"),
            next_icon: str_to_string("▶"),
            icon_color: str_to_string("#666666"),
            info_color: str_to_string("#999999"),
        }
    }
}

/// The keys that turn the page.
#[derive(Debug, Clone)]
pub struct PageKeys {
    /// Keys for the previous page: PageUp, Up, Left or Minus.
    pub previous: Vec<String>,
    /// Keys for the next page: PageDown, Down, Right or Equals.
    pub next: Vec<String>,
}

impl Default for PageKeys {
    /// PageUp and PageDown.
    fn default() -> (r: Self)
        ensures
            r.previous@.len() == 1,
            r.previous@[0]@ == "PageUp"@,
            r.next@.len() == 1,
            r.next@[0]@ == "PageDown"@,
    {
        let mut previous: Vec<String> = Vec::new();
        previous.push(str_to_string("PageUp"));
        let mut next: Vec<String> = Vec::new();
        next.push(str_to_string("PageDown"));
        PageKeys { previous, next }
    }
}

/// What a key does under the page keys.
#[derive(Debug, Clone, Copy, PartialEq, Eq, Structural)]
pub enum PageKeyRole {
    /// It turns to the previous page (acts as PageUp, code 33).
    Previous,
    /// It turns to the next page (acts as PageDown, code 34).
    Next,
    /// It keeps its own meaning.
    Keep,
}

/// The texts of a list of strings.
pub open spec fn key_names(v: Seq<String>) -> Seq<Seq<char>> {
    v.map_values(|s: String| s@)
}

/// Whether `name` is one of `names`.
fn names_contain(names: &Vec<String>, name: &str) -> (r: bool)
    ensures
        r == key_names(names@).contains(name@),
{
    let mut i: usize = 0;
    while i < names.len()
        invariant
            i <= names@.len(),
            forall|k: int| 0 <= k < i ==> names@[k]@ != name@,
        decreases names@.len() - i,
    {
        if str_eq(names[i].as_str(), name) {
            assert(key_names(names@)[i as int] == name@);
            return true;
        }
        i = i + 1;
    }
    proof {
        if key_names(names@).contains(name@) {
            let k = choose|k: int| 0 <= k < key_names(names@).len() && key_names(names@)[k] == name@;
            assert(names@[k]@ == name@);
        }
    }
    false
}

impl PageKeys {
    /// The role of the key named `name` (such as PageUp, Up, Left, Minus):
    /// a previous-page key first, then a next-page key.
    pub fn role_of(&self, name: &str) -> (r: PageKeyRole)
        ensures
            r == if key_names(self.previous@).contains(name@) {
                PageKeyRole::Previous
            } else if key_names(self.next@).contains(name@) {
                PageKeyRole::Next
            } else {
                PageKeyRole::Keep
            },
    {
        if names_contain(&self.previous, name) {
            PageKeyRole::Previous
        } else if names_contain(&self.next, name) {
            PageKeyRole::Next
        } else {
            PageKeyRole::Keep
        }
    }
}

/// How keys act.
#[derive(Debug, Clone)]
pub struct BehaviorConfig {
    /// Fuzzy matching on.
    pub fuzzy_enabled: bool,
    /// Learning on.
    pub l0_enabled: bool,
    /// Space confirms (else it types a space).
    pub space_confirms: bool,
    /// Digits 1 to 9 pick a candidate.
    pub digit_selects: bool,
    /// Enter confirms.
    pub enter_confirms: bool,
    /// The page keys.
    pub page_keys: PageKeys,
    /// The key that switches between Chinese and English.
    pub toggle_key: String,
}

impl Default for BehaviorConfig {
    /// Everything on; Shift switches the mode.
    fn default() -> (r: Self)
        ensures
            r.fuzzy_enabled,
            r.l0_enabled,
            r.space_confirms,
            r.digit_selects,
            r.enter_confirms,
            r.page_keys.previous@.len() == 1,
            r.page_keys.previous@[0]@ == "PageUp"@,
            r.page_keys.next@.len() == 1,
            r.page_keys.next@[0]@ == "PageDown"@,
            r.toggle_key@ == "Shift"@,
    {
        BehaviorConfig {
            fuzzy_enabled: true,
            l0_enabled: true,
            space_confirms: true,
            digit_selects: true,
            enter_confirms: true,
            page_keys: PageKeys::default(),
            toggle_key: str_to_string("Shift"),
        }
    }
}

/// All the settings of the candidate window.
#[derive(Debug, Clone)]
pub struct GuiConfig {
    /// Theme name: dark, light, dark_plus, light_plus, or anything else for none.
    pub theme: String,
    /// Path of the dictionary (.cin or .fst).
    pub dict_path: String,
    /// Candidates per page.
    pub page_size: usize,
    /// The window.
    pub window: WindowConfig,
    /// The spelling bar.
    pub buffer_bar: BufferBarConfig,
    /// The candidate bar.
    pub candidate_bar: CandidateBarConfig,
    /// Each candidate.
    pub candidate_item: CandidateItemConfig,
    /// The page arrows.
    pub pagination: PaginationConfig,
    /// Key behaviour.
    pub behavior: BehaviorConfig,
}

impl Default for GuiConfig {
    /// No theme, the base dictionary, ten per page, and each part's defaults.
    fn default() -> (r: Self)
        ensures
            r.theme@ == "custom"@,
            r.dict_path@ == "resources/dicts/base.cin"@,
            r.page_size == 10,
            r.window.background_color@ == "#FFFFFF"@,
            r.window.border_color@ == "#CCCCCC"@,
            r.window.font_size == 14,
            r.buffer_bar.text_color@ == "#333333"@,
            r.buffer_bar.background_color@ == "#F5F5F5"@,
            r.candidate_bar.background_color@ == "#FFFFFF"@,
            r.candidate_item.text_color@ == "#000000"@,
            r.candidate_item.selected_text_color@ == "#FFFFFF"@,
            r.candidate_item.selected_background_color@ == "#0078D4"@,
            r.candidate_item.index_color@ == "#888888"@,
            r.pagination.icon_color@ == "#666666"@,
            r.pagination.info_color@ == "#999999"@,
            r.behavior.space_confirms,
            r.behavior.digit_selects,
    {
        GuiConfig {
            theme: str_to_string("custom"),
            dict_path: str_to_string("resources/dicts/base.cin"),
            page_size: 10,
            window: WindowConfig::default(),
            buffer_bar: BufferBarConfig::default(),
            candidate_bar: CandidateBarConfig::default(),
            candidate_item: CandidateItemConfig::default(),
            pagination: PaginationConfig::default(),
            behavior: BehaviorConfig::default(),
        }
    }
}

/// The colours a theme sets, in this order: window background, window border,
/// spelling text, spelling background, candidate bar background, candidate
/// text, selected text, selected background, number, icon, page information.
pub open spec fn theme_colors(name: Seq<char>) -> Option<Seq<Seq<char>>> {
    if name == "dark"@ {
        Some(seq![
            "#1E1E1E"@, "#454545"@, "#D4D4D4"@, "#252526"@, "#252526"@, "#CCCCCC"@,
            "#FFFFFF"@, "#0E639C"@, "#8A8A8A"@, "#6E6E6E"@, "#8A8A8A"@,
        ])
    } else if name == "dark_plus"@ {
        Some(seq![
            "#1E1E1E"@, "#454545"@, "#D4D4D4"@, "#252526"@, "#252526"@, "#CCCCCC"@,
            "#FFFFFF"@, "#094771"@, "#8A8A8A"@, "#569CD6"@, "#6E6E6E"@,
        ])
    } else if name == "light"@ {
        Some(seq![
            "#FFFFFF"@, "#C8C8C8"@, "#333333"@, "#F3F3F3"@, "#F3F3F3"@, "#000000"@,
            "#FFFFFF"@, "#0066FF"@, "#606060"@, "#6E6E6E"@, "#808080"@,
        ])
    } else if name == "light_plus"@ {
        Some(seq![
            "#FFFFFF"@, "#C8C8C8"@, "#333333"@, "#F3F3F3"@, "#F3F3F3"@, "#000000"@,
            "#FFFFFF"@, "#005FB8"@, "#606060"@, "#007ACC"@, "#808080"@,
        ])
    } else {
        None
    }
}

impl GuiConfig {
    /// The colours a theme can set, in the order of `theme_colors`.
    pub open spec fn colors(self) -> Seq<Seq<char>> {
        seq![
            self.window.background_color@,
            self.window.border_color@,
            self.buffer_bar.text_color@,
            self.buffer_bar.background_color@,
            self.candidate_bar.background_color@,
            self.candidate_item.text_color@,
            self.candidate_item.selected_text_color@,
            self.candidate_item.selected_background_color@,
            self.candidate_item.index_color@,
            self.pagination.icon_color@,
            self.pagination.info_color@,
        ]
    }

    /// `self` and `other` agree in everything but the themed colours.
    pub open spec fn same_but_colors(self, other: GuiConfig) -> bool {
        &&& self.theme == other.theme
        &&& self.dict_path == other.dict_path
        &&& self.page_size == other.page_size
        &&& self.window.border_width == other.window.border_width
        &&& self.window.border_radius == other.window.border_radius
        &&& self.window.padding == other.window.padding
        &&& self.window.font_family == other.window.font_family
        &&& self.window.font_size == other.window.font_size
        &&& self.window.font_feature_settings == other.window.font_feature_settings
        &&& self.window.always_on_top == other.window.always_on_top
        &&& self.buffer_bar.visible == other.buffer_bar.visible
        &&& self.buffer_bar.font_size == other.buffer_bar.font_size
        &&& self.buffer_bar.height == other.buffer_bar.height
        &&& self.buffer_bar.align == other.buffer_bar.align
        &&& self.candidate_bar.spacing == other.candidate_bar.spacing
        &&& self.candidate_bar.layout == other.candidate_bar.layout
        &&& self.candidate_item.selected_border_radius
            == other.candidate_item.selected_border_radius
        &&& self.candidate_item.padding_h == other.candidate_item.padding_h
        &&& self.candidate_item.padding_v == other.candidate_item.padding_v
        &&& self.candidate_item.font_size == other.candidate_item.font_size
        &&& self.candidate_item.show_index == other.candidate_item.show_index
        &&& self.pagination.visible == other.pagination.visible
        &&& self.pagination.position == other.pagination.position
        &&& self.pagination.prev_icon == other.pagination.prev_icon
        &&& self.pagination.next_icon == other.pagination.next_icon
        &&& self.behavior == other.behavior
    }

    #[verifier::rlimit(30)]
    fn set_colors(
        &mut self,
        bg: &str,
        border: &str,
        buf_text: &str,
        buf_bg: &str,
        cand_bg: &str,
        item_text: &str,
        sel_text: &str,
        sel_bg: &str,
        index: &str,
        icon: &str,
        info: &str,
    )
        ensures
            final(self).colors() == seq![
                bg@, border@, buf_text@, buf_bg@, cand_bg@, item_text@, sel_text@, sel_bg@,
                index@, icon@, info@,
            ],
            final(self).same_but_colors(*old(self)),
    {
        self.window.background_color = str_to_string(bg);
        self.window.border_color = str_to_string(border);
        self.buffer_bar.text_color = str_to_string(buf_text);
        self.buffer_bar.background_color = str_to_string(buf_bg);
        self.candidate_bar.background_color = str_to_string(cand_bg);
        self.candidate_item.text_color = str_to_string(item_text);
        self.candidate_item.selected_text_color = str_to_string(sel_text);
        self.candidate_item.selected_background_color = str_to_string(sel_bg);
        self.candidate_item.index_color = str_to_string(index);
        self.pagination.icon_color = str_to_string(icon);
        self.pagination.info_color = str_to_string(info);
    }

    /// Lays the colours of theme `name` over these settings: dark, dark_plus,
    /// light or light_plus. Only colours change; any other name changes nothing.
    pub fn apply_theme(&mut self, name: &str)
        ensures
            match theme_colors(name@) {
                Some(cs) => final(self).colors() == cs && final(self).same_but_colors(
                    *old(self),
                ),
                None => *final(self) == *old(self),
            },
    {
        if str_eq(name, "dark") {
            self.set_colors(
                "#1E1E1E", "#454545", "#D4D4D4", "#252526", "#252526", "#CCCCCC", "#FFFFFF",
                "#0E639C", "#8A8A8A", "#6E6E6E", "#8A8A8A",
            );
        } else if str_eq(name, "dark_plus") {
            self.set_colors(
                "#1E1E1E", "#454545", "#D4D4D4", "#252526", "#252526", "#CCCCCC", "#FFFFFF",
                "#094771", "#8A8A8A", "#569CD6", "#6E6E6E",
            );
        } else if str_eq(name, "light") {
            self.set_colors(
                "#FFFFFF", "#C8C8C8", "#333333", "#F3F3F3", "#F3F3F3", "#000000", "#FFFFFF",
                "#0066FF", "#606060", "#6E6E6E", "#808080",
            );
        } else if str_eq(name, "light_plus") {
            self.set_colors(
                "#FFFFFF", "#C8C8C8", "#333333", "#F3F3F3", "#F3F3F3", "#000000", "#FFFFFF",
                "#005FB8", "#606060", "#007ACC", "#808080",
            );
        }
    }
}

} // verus!
