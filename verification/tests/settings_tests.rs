use sudokube::render::{mode_label, RenderMode};
use sudokube::i18n::Lang;
use sudokube::settings::{detect_language, AppSettings, GuideState, SettingsField, SettingsState};

#[test]
fn defaults_and_guide_state() {
    let mut s = AppSettings::defaults_for("en".to_string());
    assert_eq!(s.standard_cell_width, 7);
    assert_eq!(s.cube_scale, "0.38");
    assert_eq!(s.guide_state(), GuideState::Locked);
    assert!(!s.guide_active());
    s.guide_owned = "on".to_string();
    assert_eq!(s.guide_state(), GuideState::Disabled);
    s.guide_enabled = "on".to_string();
    assert_eq!(s.guide_state(), GuideState::Enabled);
    assert!(s.guide_active());
}

#[test]
fn language_from_the_environment() {
    assert_eq!(detect_language("Asia/Shanghai", "", ""), "en");
    assert_eq!(detect_language("", "zh_CN.UTF-8", ""), "zh");
    assert_eq!(detect_language("", "en_US.UTF-8", "ja_JP"), "ja");
    assert_eq!(detect_language("", "EN_US", "C"), "en");
    assert_eq!(detect_language("PRC", "", "CN"), "zh");
}

#[test]
fn popup_fields_start_on_the_current_values() {
    let s = AppSettings::defaults_for("ja".to_string());
    let st = SettingsState::from_settings(&s);
    assert_eq!(st.fields.len(), 21);
    assert_eq!(st.fields[0].label, "Cell Width");
    assert_eq!(st.fields[0].value, "7");
    assert_eq!(st.fields[0].option_index, 2);
    assert_eq!(st.fields[0].options.len(), 7);
    assert_eq!(st.fields[11].value, "0.38");
    assert_eq!(st.fields[11].option_index, 2);
    assert_eq!(st.fields[17].value, "ja");
    assert_eq!(st.fields[17].option_index, 2);
    assert_eq!(st.fields[20].value, "Configure...");
    assert!(!st.visible);
    assert_eq!(st.keymap_debug_mode, "off");
}

#[test]
fn fields_cycle_round_their_options() {
    let mut f = SettingsField::new("Show Cube", "no", vec!["yes".to_string(), "no".to_string()]);
    assert_eq!(f.option_index, 1);
    f.cycle_next();
    assert_eq!(f.value, "yes");
    assert_eq!(f.option_index, 0);
    f.cycle_prev();
    assert_eq!(f.value, "no");
    let g = SettingsField::new("X", "unknown", vec!["a".to_string()]);
    assert_eq!(g.option_index, 0);
    assert_eq!(g.value, "unknown");
}

#[test]
fn applying_the_popup() {
    let mut s = AppSettings::defaults_for("en".to_string());
    let mut st = SettingsState::from_settings(&s);
    st.fields[0].cycle_next();
    st.fields[1].cycle_next();
    st.fields[10].cycle_next();
    st.apply_to(&mut s);
    assert_eq!(s.standard_cell_width, 9);
    assert_eq!(s.bg_color, "darkgray");
    assert_eq!(s.guide_enabled, "off");
    s.guide_owned = "on".to_string();
    st.apply_to(&mut s);
    assert_eq!(s.guide_enabled, "on");
    st.fields[0].value = "wide".to_string();
    st.apply_to(&mut s);
    assert_eq!(s.standard_cell_width, 7);
}

#[test]
fn render_modes() {
    let s = AppSettings::defaults_for("en".to_string());
    assert_eq!(RenderMode::Scrollbar.toggle(), RenderMode::Compact);
    assert_eq!(RenderMode::Standard.toggle(), RenderMode::Scrollbar);
    assert_eq!(RenderMode::Standard.cell_width(&s), 7);
    assert_eq!(RenderMode::Scrollbar.cell_width(&s), 3);
    assert_eq!(RenderMode::Standard.cell_height(), 3);
    assert_eq!(mode_label(RenderMode::Standard, Lang::En), "Std");
    assert_eq!(mode_label(RenderMode::Compact, Lang::Zh), "???");
}
