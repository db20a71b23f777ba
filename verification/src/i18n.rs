//! Interface languages and the translation table.

use vstd::prelude::*;

use crate::text::str_eq;

verus! {

/// An interface language.
#[derive(Debug, Clone, Copy, PartialEq, Eq, Structural)]
pub enum Lang {
    Zh,
    En,
    Ja,
}

impl Lang {
    /// The language for a settings code: "zh" and "ja" name their languages, anything else
    /// is English.
    pub fn from_code(code: &str) -> (r: Lang)
        ensures
            r == (if code@ == "zh"@ {
                Lang::Zh
            } else if code@ == "ja"@ {
                Lang::Ja
            } else {
                Lang::En
            }),
    {
        if str_eq(code, "zh") {
            Lang::Zh
        } else if str_eq(code, "ja") {
            Lang::Ja
        } else {
            Lang::En
        }
    }
}

/// The text among three translations that belongs to `lang`.
pub open spec fn pick(lang: Lang, zh: Seq<char>, en: Seq<char>, ja: Seq<char>) -> Seq<char> {
    match lang {
        Lang::Zh => zh,
        Lang::En => en,
        Lang::Ja => ja,
    }
}

fn choose_lang(lang: Lang, zh: &'static str, en: &'static str, ja: &'static str) -> (r: &'static str)
    ensures
        r@ == pick(lang, zh@, en@, ja@),
{
    match lang {
        Lang::Zh => zh,
        Lang::En => en,
        Lang::Ja => ja,
    }
}

/// The translation table: the text of `key` in `lang`, `"???"` for an unknown key.
pub open spec fn translation(key: Seq<char>, lang: Lang) -> Seq<char> {
    if key == "menu.new_easy"@ {
        pick(lang, "新游戏 - 简单"@, "New Game - Easy"@, "新ゲーム - 簡単"@)
    } else if key == "menu.new_medium"@ {
        pick(lang, "新游戏 - 中等"@, "New Game - Medium"@, "新ゲーム - 普通"@)
    } else if key == "menu.new_hard"@ {
        pick(lang, "新游戏 - 困难"@, "New Game - Hard"@, "新ゲーム - 難しい"@)
    } else if key == "menu.settings"@ {
        pick(lang, "设置"@, "Settings"@, "設定"@)
    } else if key == "menu.continue"@ {
        pick(lang, "继续"@, "Continue"@, "続行"@)
    } else if key == "menu.completed"@ {
        pick(lang, "已完成"@, "Done"@, "完了"@)
    } else if key == "menu.in_progress"@ {
        pick(lang, "进行中"@, "Playing"@, "プレイ中"@)
    } else if key == "menu.hint_nav"@ {
        pick(lang, "↑/↓ 选择  Enter 确认  D 删除  Q 退出"@, "↑/↓ Select  Enter OK  D Delete  Q Quit"@, "↑/↓ 選択  Enter 決定  D 削除  Q 終了"@)
    } else if key == "settings.title"@ {
        pick(lang, "设 置"@, "Settings"@, "設 定"@)
    } else if key == "settings.hint"@ {
        pick(lang, "←/→ 切换  Enter/Esc 返回"@, "←/→ Change  Enter/Esc Back"@, "←/→ 変更  Enter/Esc 戻る"@)
    } else if key == "game.face_front"@ {
        pick(lang, "F前"@, "F-Front"@, "F-前"@)
    } else if key == "game.face_back"@ {
        pick(lang, "B后"@, "B-Back"@, "B-後"@)
    } else if key == "game.face_left"@ {
        pick(lang, "L左"@, "L-Left"@, "L-左"@)
    } else if key == "game.face_right"@ {
        pick(lang, "R右"@, "R-Right"@, "R-右"@)
    } else if key == "game.face_top"@ {
        pick(lang, "T上"@, "T-Top"@, "T-上"@)
    } else if key == "game.face_bottom"@ {
        pick(lang, "U下"@, "U-Bottom"@, "U-下"@)
    } else if key == "game.mode_standard"@ {
        pick(lang, "标准"@, "Std"@, "標準"@)
    } else if key == "game.mode_mono"@ {
        pick(lang, "等距"@, "Mono"@, "等幅"@)
    } else if key == "game.diff_easy"@ {
        pick(lang, "简单"@, "Easy"@, "簡単"@)
    } else if key == "game.diff_medium"@ {
        pick(lang, "中等"@, "Medium"@, "普通"@)
    } else if key == "game.diff_hard"@ {
        pick(lang, "困难"@, "Hard"@, "難しい"@)
    } else if key == "btn.erase"@ {
        pick(lang, "[X]Erase"@, "[X]Erase"@, "[X]消去"@)
    } else if key == "btn.hint"@ {
        pick(lang, "[H]Hint"@, "[H]Hint"@, "[H]ﾋﾝﾄ"@)
    } else if key == "btn.undo"@ {
        pick(lang, "[Z]Undo"@, "[Z]Undo"@, "[Z]戻す"@)
    } else if key == "btn.guide"@ {
        pick(lang, "[G]Guide"@, "[G]Guide"@, "[G]ｶﾞｲﾄﾞ"@)
    } else if key == "btn.mode"@ {
        pick(lang, "[M]Mode"@, "[M]Mode"@, "[M]ﾓｰﾄﾞ"@)
    } else if key == "btn.menu"@ {
        pick(lang, "[Q]Menu"@, "[Q]Menu"@, "[Q]ﾒﾆｭｰ"@)
    } else if key == "msg.generating"@ {
        pick(lang, "正在生成数独立方体..."@, "Generating Sudoku Cube..."@, "数独立方体を生成中..."@)
    } else if key == "msg.guide_on"@ {
        pick(lang, "辅助模式已开启"@, "Guide mode ON"@, "ガイドモード ON"@)
    } else if key == "msg.guide_off"@ {
        pick(lang, "辅助模式已关闭"@, "Guide mode OFF"@, "ガイドモード OFF"@)
    } else if key == "msg.mode_switched"@ {
        pick(lang, "已切换为 {} 模式"@, "Switched to {} mode"@, "{}モードに切替"@)
    } else if key == "msg.saved"@ {
        pick(lang, "设置已保存"@, "Settings saved"@, "設定保存済み"@)
    } else if key == "settings.cell_width"@ {
        pick(lang, "标准格宽"@, "Cell Width"@, "セル幅"@)
    } else if key == "settings.bg_color"@ {
        pick(lang, "背景颜色"@, "BG Color"@, "背景色"@)
    } else if key == "settings.border_color"@ {
        pick(lang, "边框颜色"@, "Border Color"@, "枠色"@)
    } else if key == "settings.guide_group"@ {
        pick(lang, "辅助-同组"@, "Guide-Group"@, "ガイド-同組"@)
    } else if key == "settings.guide_same"@ {
        pick(lang, "辅助-同数"@, "Guide-Same"@, "ガイド-同数"@)
    } else if key == "settings.cube_scale"@ {
        pick(lang, "Cube缩放"@, "Cube Scale"@, "Cubeｽｹｰﾙ"@)
    } else if key == "settings.show_cube"@ {
        pick(lang, "显示Cube"@, "Show Cube"@, "Cube表示"@)
    } else if key == "settings.language"@ {
        pick(lang, "语言"@, "Language"@, "言語"@)
    } else {
        "???"@
    }
}

/// The text of `key` in `lang`; `"???"` for a key the table does not hold.
pub fn t(key: &str, lang: Lang) -> (r: &'static str)
    ensures
        r@ == translation(key@, lang),
{
    if str_eq(key, "menu.new_easy") {
        return choose_lang(lang, "新游戏 - 简单", "New Game - Easy", "新ゲーム - 簡単");
    }
    if str_eq(key, "menu.new_medium") {
        return choose_lang(lang, "新游戏 - 中等", "New Game - Medium", "新ゲーム - 普通");
    }
    if str_eq(key, "menu.new_hard") {
        return choose_lang(lang, "新游戏 - 困难", "New Game - Hard", "新ゲーム - 難しい");
    }
    if str_eq(key, "menu.settings") {
        return choose_lang(lang, "设置", "Settings", "設定");
    }
    if str_eq(key, "menu.continue") {
        return choose_lang(lang, "继续", "Continue", "続行");
    }
    if str_eq(key, "menu.completed") {
        return choose_lang(lang, "已完成", "Done", "完了");
    }
    if str_eq(key, "menu.in_progress") {
        return choose_lang(lang, "进行中", "Playing", "プレイ中");
    }
    if str_eq(key, "menu.hint_nav") {
        return choose_lang(lang, "↑/↓ 选择  Enter 确认  D 删除  Q 退出", "↑/↓ Select  Enter OK  D Delete  Q Quit", "↑/↓ 選択  Enter 決定  D 削除  Q 終了");
    }
    if str_eq(key, "settings.title") {
        return choose_lang(lang, "设 置", "Settings", "設 定");
    }
    if str_eq(key, "settings.hint") {
        return choose_lang(lang, "←/→ 切换  Enter/Esc 返回", "←/→ Change  Enter/Esc Back", "←/→ 変更  Enter/Esc 戻る");
    }
    if str_eq(key, "game.face_front") {
        return choose_lang(lang, "F前", "F-Front", "F-前");
    }
    if str_eq(key, "game.face_back") {
        return choose_lang(lang, "B后", "B-Back", "B-後");
    }
    if str_eq(key, "game.face_left") {
        return choose_lang(lang, "L左", "L-Left", "L-左");
    }
    if str_eq(key, "game.face_right") {
        return choose_lang(lang, "R右", "R-Right", "R-右");
    }
    if str_eq(key, "game.face_top") {
        return choose_lang(lang, "T上", "T-Top", "T-上");
    }
    if str_eq(key, "game.face_bottom") {
        return choose_lang(lang, "U下", "U-Bottom", "U-下");
    }
    if str_eq(key, "game.mode_standard") {
        return choose_lang(lang, "标准", "Std", "標準");
    }
    if str_eq(key, "game.mode_mono") {
        return choose_lang(lang, "等距", "Mono", "等幅");
    }
    if str_eq(key, "game.diff_easy") {
        return choose_lang(lang, "简单", "Easy", "簡単");
    }
    if str_eq(key, "game.diff_medium") {
        return choose_lang(lang, "中等", "Medium", "普通");
    }
    if str_eq(key, "game.diff_hard") {
        return choose_lang(lang, "困难", "Hard", "難しい");
    }
    if str_eq(key, "btn.erase") {
        return choose_lang(lang, "[X]Erase", "[X]Erase", "[X]消去");
    }
    if str_eq(key, "btn.hint") {
        return choose_lang(lang, "[H]Hint", "[H]Hint", "[H]ﾋﾝﾄ");
    }
    if str_eq(key, "btn.undo") {
        return choose_lang(lang, "[Z]Undo", "[Z]Undo", "[Z]戻す");
    }
    if str_eq(key, "btn.guide") {
        return choose_lang(lang, "[G]Guide", "[G]Guide", "[G]ｶﾞｲﾄﾞ");
    }
    if str_eq(key, "btn.mode") {
        return choose_lang(lang, "[M]Mode", "[M]Mode", "[M]ﾓｰﾄﾞ");
    }
    if str_eq(key, "btn.menu") {
        return choose_lang(lang, "[Q]Menu", "[Q]Menu", "[Q]ﾒﾆｭｰ");
    }
    if str_eq(key, "msg.generating") {
        return choose_lang(lang, "正在生成数独立方体...", "Generating Sudoku Cube...", "数独立方体を生成中...");
    }
    if str_eq(key, "msg.guide_on") {
        return choose_lang(lang, "辅助模式已开启", "Guide mode ON", "ガイドモード ON");
    }
    if str_eq(key, "msg.guide_off") {
        return choose_lang(lang, "辅助模式已关闭", "Guide mode OFF", "ガイドモード OFF");
    }
    if str_eq(key, "msg.mode_switched") {
        return choose_lang(lang, "已切换为 {} 模式", "Switched to {} mode", "{}モードに切替");
    }
    if str_eq(key, "msg.saved") {
        return choose_lang(lang, "设置已保存", "Settings saved", "設定保存済み");
    }
    if str_eq(key, "settings.cell_width") {
        return choose_lang(lang, "标准格宽", "Cell Width", "セル幅");
    }
    if str_eq(key, "settings.bg_color") {
        return choose_lang(lang, "背景颜色", "BG Color", "背景色");
    }
    if str_eq(key, "settings.border_color") {
        return choose_lang(lang, "边框颜色", "Border Color", "枠色");
    }
    if str_eq(key, "settings.guide_group") {
        return choose_lang(lang, "辅助-同组", "Guide-Group", "ガイド-同組");
    }
    if str_eq(key, "settings.guide_same") {
        return choose_lang(lang, "辅助-同数", "Guide-Same", "ガイド-同数");
    }
    if str_eq(key, "settings.cube_scale") {
        return choose_lang(lang, "Cube缩放", "Cube Scale", "Cubeｽｹｰﾙ");
    }
    if str_eq(key, "settings.show_cube") {
        return choose_lang(lang, "显示Cube", "Show Cube", "Cube表示");
    }
    if str_eq(key, "settings.language") {
        return choose_lang(lang, "语言", "Language", "言語");
    }
    "???"
}

} // verus!
