use sudokube::cube::Face;
use sudokube::i18n::{t, Lang};
use sudokube::input::{game_key_command, GameCommand};
use sudokube::keymap::{InputKey, ModKey};
use sudokube::navigation::{cycle_face_horizontal, cycle_face_vertical, face_label, face_name, move_on_surface, switch_face};
use sudokube::render::{bordered_line, display_width, face_to_color, pad_center, pad_right, parse_color, NamedColor};
use sudokube::shop::{shop_catalog, ItemType};
use sudokube::text::{decimal_string, parse_usize};
use sudokube::types::{position_kind, PositionKind, Theme};

fn none() -> ModKey {
    ModKey { shift: false, alt: false, ctrl: false }
}

#[test]
fn widths_and_padding() {
    assert_eq!(display_width("abc"), 3);
    assert_eq!(display_width("设置"), 4);
    assert_eq!(pad_right("ab", 5), "ab   ");
    assert_eq!(pad_right("abcdef", 3), "abcdef");
    assert_eq!(pad_center("ab", 7), "  ab   ");
    assert_eq!(pad_center("设", 5), " 设  ");
    assert_eq!(bordered_line("x", 3, false), "│x  │");
    assert_eq!(bordered_line("x", 3, true), "│ x │");
}

#[test]
fn colours_by_name() {
    assert_eq!(parse_color("magenta"), NamedColor::Magenta);
    assert_eq!(parse_color("darkgray"), NamedColor::DarkGray);
    assert_eq!(parse_color("purple"), NamedColor::Cyan);
    assert_eq!(face_to_color(Face::Front), NamedColor::Red);
}

#[test]
fn numbers_as_text() {
    assert_eq!(parse_usize("42"), Some(42));
    assert_eq!(parse_usize("+7"), Some(7));
    assert_eq!(parse_usize(""), None);
    assert_eq!(parse_usize("+"), None);
    assert_eq!(parse_usize("-1"), None);
    assert_eq!(parse_usize("4x"), None);
    assert_eq!(parse_usize("99999999999999999999999"), None);
    assert_eq!(decimal_string(0), "0");
    assert_eq!(decimal_string(1234), "1234");
}

#[test]
fn translations() {
    assert_eq!(t("menu.settings", Lang::Ja), "設定");
    assert_eq!(t("nope", Lang::En), "???");
    assert_eq!(Lang::from_code("zh"), Lang::Zh);
    assert_eq!(Lang::from_code("fr"), Lang::En);
    assert_eq!(face_name(Face::Bottom, Lang::En), "U-Bottom");
    assert_eq!(face_label(Face::Bottom, Lang::Zh), "U");
}

#[test]
fn moving_across_faces() {
    assert_eq!(move_on_surface(Face::Front, (4, 4), 1, 0), (Face::Front, (5, 4)));
    assert_eq!(move_on_surface(Face::Front, (8, 4), 1, 0), (Face::Right, (4, 8)));
    assert_eq!(move_on_surface(Face::Front, (3, 0), 0, -1), (Face::Bottom, (8, 3)));
    assert_ne!(switch_face(Face::Front, 1, 0), Face::Front);
    let f = cycle_face_vertical(Face::Front, true);
    assert_eq!(cycle_face_vertical(f, false), Face::Front);
    let g = cycle_face_horizontal(Face::Front, true);
    assert_eq!(cycle_face_horizontal(g, false), Face::Front);
}

#[test]
fn game_keys() {
    assert_eq!(game_key_command(InputKey::Char('7'), none()), GameCommand::Place(7));
    assert_eq!(game_key_command(InputKey::Char('0'), none()), GameCommand::Nothing);
    assert_eq!(game_key_command(InputKey::Char('H'), none()), GameCommand::Hint);
    assert_eq!(
        game_key_command(InputKey::Char('h'), ModKey { shift: false, alt: true, ctrl: false }),
        GameCommand::DebugHintFace
    );
    assert_eq!(game_key_command(InputKey::Char('W'), ModKey { shift: true, alt: false, ctrl: false }), GameCommand::MoveCursor(0, -1));
    assert_eq!(game_key_command(InputKey::Char('w'), ModKey { shift: false, alt: false, ctrl: true }), GameCommand::Nothing);
    assert_eq!(game_key_command(InputKey::Char('{'), none()), GameCommand::PagePrev);
    assert_eq!(game_key_command(InputKey::Left, none()), GameCommand::SwitchFace(-1, 0));
    assert_eq!(game_key_command(InputKey::Char('u'), none()), GameCommand::JumpFace(Face::Bottom));
    assert_eq!(game_key_command(InputKey::Delete, none()), GameCommand::Erase);
    assert_eq!(game_key_command(InputKey::Char('x'), none()), GameCommand::EraseUnlessGiven);
}

#[test]
fn small_rules() {
    assert_eq!(position_kind(0, 0, 0), PositionKind::Corner);
    assert_eq!(position_kind(0, 8, 3), PositionKind::Edge);
    assert_eq!(position_kind(0, 3, 3), PositionKind::Center);
    assert_eq!(position_kind(3, 3, 3), PositionKind::Center);
    assert_eq!(Theme::Dark.toggle(), Theme::Light);
    assert_eq!(Theme::default().toggle().toggle(), Theme::Dark);
    let cat = shop_catalog();
    assert_eq!(cat.len(), 5);
    assert_eq!(cat[3].item_type, ItemType::Snake5);
    assert_eq!(cat[3].price, 30);
    assert_eq!(ItemType::Snake5.fruit_count(), 5);
    assert!(!ItemType::Target.is_snake());
    assert_eq!(ItemType::Face.tag(), "Fc");
    assert_eq!(ItemType::Cube.name_key(), "shop.cube");
}

#[test]
fn face_names_start_with_their_code_and_differ() {
    for lang in [Lang::Zh, Lang::En, Lang::Ja] {
        let faces = Face::all();
        for f in faces {
            assert!(face_name(f, lang).starts_with(f.short_code()));
        }
        for a in faces {
            for b in faces {
                if a != b {
                    assert_ne!(face_name(a, lang), face_name(b, lang));
                }
            }
        }
    }
    assert_eq!(face_name(Face::Front, Lang::En), "F-Front");
    assert_eq!(face_name(Face::Bottom, Lang::Zh), "U下");
}
