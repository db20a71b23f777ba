//! Moving the cursor and the view between faces of the cube.

use vstd::prelude::*;

use crate::codec::starts_with;
use crate::cube::{face_code, CubeCoord, Face};
use crate::i18n::{pick, t, translation, Lang};

verus! {

/// One-letter label of a face (the same in every language).
pub fn face_label(face: Face, _lang: Lang) -> (r: &'static str)
    ensures
        r@ == (match face {
            Face::Front => "F"@,
            Face::Back => "B"@,
            Face::Left => "L"@,
            Face::Right => "R"@,
            Face::Top => "T"@,
            Face::Bottom => "U"@,
        }),
{
    match face {
        Face::Front => "F",
        Face::Back => "B",
        Face::Left => "L",
        Face::Right => "R",
        Face::Top => "T",
        Face::Bottom => "U",
    }
}

/// The step along a ring: one forward, or one backward (`len - 1` forward).
pub open spec fn ring_step(len: int, forward: bool) -> int {
    if forward {
        1
    } else {
        len - 1
    }
}

/// The face after (or before) the first occurrence of `face` in `ring`; when `face` is
/// not in the ring, the first face going forward and the last going backward.
pub open spec fn ring_cycle(ring: Seq<Face>, face: Face, forward: bool) -> Face {
    match ring.index_of_first(face) {
        Some(p) => ring[(p + ring_step(ring.len() as int, forward)) % (ring.len() as int)],
        None => if forward {
            ring[0]
        } else {
            ring[ring.len() - 1]
        },
    }
}

/// The face after (or before) `face` in `ring`; when `face` is not in the ring, the first
/// face going forward and the last going backward.
pub fn cycle_in_ring(ring: &[Face], face: Face, forward: bool) -> (r: Face)
    requires
        ring@.len() > 0,
        ring@.len() <= usize::MAX / 2,
    ensures
        r == ring_cycle(ring@, face, forward),
{
    proof {
        ring@.index_of_first_ensures(face);
    }
    let len = ring.len();
    let mut pos: usize = 0;
    while pos < len
        invariant
            len == ring@.len(),
            len <= usize::MAX / 2,
            pos <= len,
            forall|q: int| 0 <= q < pos ==> ring@[q] != face,
            match ring@.index_of_first(face) {
                Some(index) => {
                    &&& ring@.contains(face)
                    &&& 0 <= index < ring@.len()
                    &&& ring@[index] == face
                    &&& forall|j: int| 0 <= j < index < ring@.len() ==> ring@[j] != face
                },
                None => { !ring@.contains(face) },
            },
        decreases len - pos,
    {
        if ring[pos] == face {
            let delta = if forward {
                1
            } else {
                len - 1
            };
            let r = ring[(pos + delta) % len];
            proof {
                assert(ring@.contains(face));
                let idx = ring@.index_of_first(face).unwrap();
                assert(idx == pos);
            }
            return r;
        }
        pos += 1;
    }
    proof {
        if ring@.contains(face) {
            let q = choose|q: int| 0 <= q < ring@.len() && ring@[q] == face;
            assert(ring@[q] != face);
        }
    }
    if forward {
        ring[0]
    } else {
        ring[len - 1]
    }
}

/// The vertical ring Front → Top → Back → Bottom; a face outside it goes to Front
/// forward and to Bottom backward.
pub open spec fn vertical_cycle(face: Face, forward: bool) -> Face {
    match face {
        Face::Front => if forward { Face::Top } else { Face::Bottom },
        Face::Top => if forward { Face::Back } else { Face::Front },
        Face::Back => if forward { Face::Bottom } else { Face::Top },
        Face::Bottom => if forward { Face::Front } else { Face::Back },
        _ => if forward { Face::Front } else { Face::Bottom },
    }
}

/// The horizontal ring Front → Left → Back → Right; a face outside it goes to Front
/// forward and to Right backward.
pub open spec fn horizontal_cycle(face: Face, forward: bool) -> Face {
    match face {
        Face::Front => if forward { Face::Left } else { Face::Right },
        Face::Left => if forward { Face::Back } else { Face::Front },
        Face::Back => if forward { Face::Right } else { Face::Left },
        Face::Right => if forward { Face::Front } else { Face::Back },
        _ => if forward { Face::Front } else { Face::Right },
    }
}

/// The next face of the vertical ring (Front, Top, Back, Bottom).
#[verifier::spinoff_prover]
pub fn cycle_face_vertical(face: Face, forward: bool) -> (r: Face)
    ensures
        r == vertical_cycle(face, forward),
{
    let ring = [Face::Front, Face::Top, Face::Back, Face::Bottom];
    let r = cycle_in_ring(&ring, face, forward);
    proof {
        assert(ring@ == seq![Face::Front, Face::Top, Face::Back, Face::Bottom]);
        ring@.index_of_first_ensures(face);
        match face {
            Face::Front => assert(ring@.index_of_first(face) == Some(0int)),
            Face::Top => assert(ring@.index_of_first(face) == Some(1int)),
            Face::Back => assert(ring@.index_of_first(face) == Some(2int)),
            Face::Bottom => assert(ring@.index_of_first(face) == Some(3int)),
            _ => assert(!ring@.contains(face)),
        }
    }
    r
}

/// The next face of the horizontal ring (Front, Left, Back, Right).
pub fn cycle_face_horizontal(face: Face, forward: bool) -> (r: Face)
    ensures
        r == horizontal_cycle(face, forward),
{
    let ring = [Face::Front, Face::Left, Face::Back, Face::Right];
    let r = cycle_in_ring(&ring, face, forward);
    proof {
        assert(ring@ == seq![Face::Front, Face::Left, Face::Back, Face::Right]);
        ring@.index_of_first_ensures(face);
        match face {
            Face::Front => assert(ring@.index_of_first(face) == Some(0int)),
            Face::Left => assert(ring@.index_of_first(face) == Some(1int)),
            Face::Back => assert(ring@.index_of_first(face) == Some(2int)),
            Face::Right => assert(ring@.index_of_first(face) == Some(3int)),
            _ => assert(!ring@.contains(face)),
        }
    }
    r
}

/// Where a cursor step `(dx, dy)` from local `(u, v)` of `face` lands: on the same face
/// when it stays in `0..9`, otherwise on the neighbouring face across the edge it crossed.
pub open spec fn surface_step(face: Face, u: int, v: int, dx: int, dy: int) -> (Face, (int, int)) {
    let nu = u + dx;
    let nv = v + dy;
    if 0 <= nu < 9 && 0 <= nv < 9 {
        (face, (nu, nv))
    } else {
        match face {
            Face::Front => if nv < 0 {
                (Face::Bottom, (8, u))
            } else if nv > 8 {
                (Face::Top, (u, 8))
            } else if nu < 0 {
                (Face::Left, (8, v))
            } else {
                (Face::Right, (v, 8))
            },
            Face::Back => if nv < 0 {
                (Face::Left, (0, u))
            } else if nv > 8 {
                (Face::Right, (u, 0))
            } else if nu < 0 {
                (Face::Bottom, (v, 0))
            } else {
                (Face::Top, (v, 0))
            },
            Face::Top => if nv < 0 {
                (Face::Back, (u, 8))
            } else if nv > 8 {
                (Face::Front, (u, 8))
            } else if nu < 0 {
                (Face::Left, (v, 8))
            } else {
                (Face::Right, (8, v))
            },
            Face::Bottom => if nv < 0 {
                (Face::Left, (u, 0))
            } else if nv > 8 {
                (Face::Right, (0, u))
            } else if nu < 0 {
                (Face::Back, (v, 0))
            } else {
                (Face::Front, (v, 0))
            },
            Face::Left => if nv < 0 {
                (Face::Bottom, (u, 0))
            } else if nv > 8 {
                (Face::Top, (0, u))
            } else if nu < 0 {
                (Face::Back, (0, v))
            } else {
                (Face::Front, (0, v))
            },
            Face::Right => if nv < 0 {
                (Face::Back, (8, u))
            } else if nv > 8 {
                (Face::Front, (8, u))
            } else if nu < 0 {
                (Face::Bottom, (v, 8))
            } else {
                (Face::Top, (8, v))
            },
        }
    }
}

/// Moves a face-local cursor by `(dx, dy)`, wrapping onto the neighbouring face when the
/// step leaves the face.
pub fn move_on_surface(face: Face, cursor: (u8, u8), dx: i8, dy: i8) -> (r: (Face, (u8, u8)))
    requires
        cursor.0 < 128,
        cursor.1 < 128,
        cursor.0 + dx <= 127,
        cursor.1 + dy <= 127,
    ensures
        r.0 == surface_step(face, cursor.0 as int, cursor.1 as int, dx as int, dy as int).0,
        r.1.0 == surface_step(face, cursor.0 as int, cursor.1 as int, dx as int, dy as int).1.0,
        r.1.1 == surface_step(face, cursor.0 as int, cursor.1 as int, dx as int, dy as int).1.1,
{
    let (u, v) = (cursor.0 as i8, cursor.1 as i8);
    let nu = u + dx;
    let nv = v + dy;
    if 0 <= nu && nu < 9 && 0 <= nv && nv < 9 {
        return (face, (nu as u8, nv as u8));
    }
    let uu = cursor.0;
    let vv = cursor.1;
    match face {
        Face::Front => {
            if nv < 0 {
                (Face::Bottom, (8, uu))
            } else if nv > 8 {
                (Face::Top, (uu, 8))
            } else if nu < 0 {
                (Face::Left, (8, vv))
            } else {
                (Face::Right, (vv, 8))
            }
        },
        Face::Back => {
            if nv < 0 {
                (Face::Left, (0, uu))
            } else if nv > 8 {
                (Face::Right, (uu, 0))
            } else if nu < 0 {
                (Face::Bottom, (vv, 0))
            } else {
                (Face::Top, (vv, 0))
            }
        },
        Face::Top => {
            if nv < 0 {
                (Face::Back, (uu, 8))
            } else if nv > 8 {
                (Face::Front, (uu, 8))
            } else if nu < 0 {
                (Face::Left, (vv, 8))
            } else {
                (Face::Right, (8, vv))
            }
        },
        Face::Bottom => {
            if nv < 0 {
                (Face::Left, (uu, 0))
            } else if nv > 8 {
                (Face::Right, (0, uu))
            } else if nu < 0 {
                (Face::Back, (vv, 0))
            } else {
                (Face::Front, (vv, 0))
            }
        },
        Face::Left => {
            if nv < 0 {
                (Face::Bottom, (uu, 0))
            } else if nv > 8 {
                (Face::Top, (0, uu))
            } else if nu < 0 {
                (Face::Back, (0, vv))
            } else {
                (Face::Front, (0, vv))
            }
        },
        Face::Right => {
            if nv < 0 {
                (Face::Back, (8, uu))
            } else if nv > 8 {
                (Face::Front, (8, uu))
            } else if nu < 0 {
                (Face::Bottom, (vv, 8))
            } else {
                (Face::Top, (8, vv))
            }
        },
    }
}

/// A step of at most one cell in each direction from a position of a face lands on a
/// position of a face; and a single-axis step that leaves the face lands on the very same
/// cube cell, seen from the neighbouring face across the edge, except for the leftward
/// steps off Back, Bottom and Left and the upward steps off Right and Top, which land
/// elsewhere on the neighbouring face.
pub proof fn lemma_step_lands_on_surface(face: Face, u: int, v: int, dx: int, dy: int)
    requires
        0 <= u < 9,
        0 <= v < 9,
        -1 <= dx <= 1,
        -1 <= dy <= 1,
    ensures
        0 <= surface_step(face, u, v, dx, dy).1.0 < 9,
        0 <= surface_step(face, u, v, dx, dy).1.1 < 9,
        (dx == 0 || dy == 0) && !(0 <= u + dx < 9 && 0 <= v + dy < 9) && !(dx == -1 && (face
            == Face::Back || face == Face::Bottom || face == Face::Left)) && !(dy == -1 && (face
            == Face::Right || face == Face::Top)) ==> ({
            let (f2, (u2, v2)) = surface_step(face, u, v, dx, dy);
            f2.cube_at(u2 as u8, v2 as u8) == face.cube_at(u as u8, v as u8)
        }),
{
}

/// The cell of `face` on the edge that a step `(dx, dy)` crosses, at position `t` along
/// that edge.
pub open spec fn crossed_edge_cell(face: Face, dx: int, dy: int, t: u8) -> CubeCoord {
    if dx < 0 {
        face.cube_at(0, t)
    } else if dx > 0 {
        face.cube_at(8, t)
    } else if dy < 0 {
        face.cube_at(t, 0)
    } else {
        face.cube_at(t, 8)
    }
}

/// A single-axis step that leaves a face goes over to the neighbouring face across the
/// crossed edge: another face, which holds every cell of that edge (the one other face
/// that does); the cursor lands on a border line of that face, keeping its position along
/// the edge it crossed.
pub proof fn lemma_step_crosses_to_neighbour(face: Face, u: int, v: int, dx: int, dy: int)
    requires
        0 <= u < 9,
        0 <= v < 9,
        -1 <= dx <= 1,
        -1 <= dy <= 1,
        dx == 0 || dy == 0,
        !(0 <= u + dx < 9 && 0 <= v + dy < 9),
    ensures
        surface_step(face, u, v, dx, dy).0 != face,
        forall|t: u8|
            t < 9 ==> #[trigger] surface_step(face, u, v, dx, dy).0.holds(crossed_edge_cell(face, dx, dy, t)),
        ({
            let (u2, v2) = surface_step(face, u, v, dx, dy).1;
            let along = if dx != 0 {
                v
            } else {
                u
            };
            ||| u2 == along && (v2 == 0 || v2 == 8)
            ||| v2 == along && (u2 == 0 || u2 == 8)
        }),
{
}

/// The face the arrow keys switch to: up/down/left/right seen from `face`; any other
/// direction stays.
pub open spec fn switch_target(face: Face, dx: int, dy: int) -> Face {
    let (up, down, left, right) = match face {
        Face::Front => (Face::Top, Face::Bottom, Face::Left, Face::Right),
        Face::Back => (Face::Top, Face::Bottom, Face::Right, Face::Left),
        Face::Top => (Face::Back, Face::Front, Face::Left, Face::Right),
        Face::Bottom => (Face::Front, Face::Back, Face::Left, Face::Right),
        Face::Left => (Face::Top, Face::Bottom, Face::Back, Face::Front),
        Face::Right => (Face::Top, Face::Bottom, Face::Front, Face::Back),
    };
    if dx == 0 && dy == -1 {
        up
    } else if dx == 0 && dy == 1 {
        down
    } else if dx == -1 && dy == 0 {
        left
    } else if dx == 1 && dy == 0 {
        right
    } else {
        face
    }
}

/// The face shown after switching in direction `(dx, dy)` from `face`.
pub fn switch_face(face: Face, dx: i8, dy: i8) -> (r: Face)
    ensures
        r == switch_target(face, dx as int, dy as int),
{
    match face {
        Face::Front => match (dx, dy) {
            (0, -1) => Face::Top,
            (0, 1) => Face::Bottom,
            (-1, 0) => Face::Left,
            (1, 0) => Face::Right,
            _ => face,
        },
        Face::Back => match (dx, dy) {
            (0, -1) => Face::Top,
            (0, 1) => Face::Bottom,
            (-1, 0) => Face::Right,
            (1, 0) => Face::Left,
            _ => face,
        },
        Face::Top => match (dx, dy) {
            (0, -1) => Face::Back,
            (0, 1) => Face::Front,
            (-1, 0) => Face::Left,
            (1, 0) => Face::Right,
            _ => face,
        },
        Face::Bottom => match (dx, dy) {
            (0, -1) => Face::Front,
            (0, 1) => Face::Back,
            (-1, 0) => Face::Left,
            (1, 0) => Face::Right,
            _ => face,
        },
        Face::Left => match (dx, dy) {
            (0, -1) => Face::Top,
            (0, 1) => Face::Bottom,
            (-1, 0) => Face::Back,
            (1, 0) => Face::Front,
            _ => face,
        },
        Face::Right => match (dx, dy) {
            (0, -1) => Face::Top,
            (0, 1) => Face::Bottom,
            (-1, 0) => Face::Front,
            (1, 0) => Face::Back,
            _ => face,
        },
    }
}

/// Faces next to `face` as the W/A/S/D cursor keys reach them, and the opposite face:
/// `(up, down, left, right, back)`.
pub open spec fn wasd_neighbors(face: Face) -> (Face, Face, Face, Face, Face) {
    match face {
        Face::Front => (Face::Bottom, Face::Top, Face::Left, Face::Right, Face::Back),
        Face::Back => (Face::Left, Face::Right, Face::Bottom, Face::Top, Face::Front),
        Face::Top => (Face::Back, Face::Front, Face::Left, Face::Right, Face::Bottom),
        Face::Bottom => (Face::Left, Face::Right, Face::Back, Face::Front, Face::Top),
        Face::Left => (Face::Bottom, Face::Top, Face::Back, Face::Front, Face::Right),
        Face::Right => (Face::Back, Face::Front, Face::Bottom, Face::Top, Face::Left),
    }
}

/// Faces next to `face` as the arrow keys switch to them, and the opposite face:
/// `(up, down, left, right, back)`.
pub open spec fn arrow_neighbors(face: Face) -> (Face, Face, Face, Face, Face) {
    match face {
        Face::Front => (Face::Top, Face::Bottom, Face::Left, Face::Right, Face::Back),
        Face::Back => (Face::Top, Face::Bottom, Face::Right, Face::Left, Face::Front),
        Face::Top => (Face::Back, Face::Front, Face::Left, Face::Right, Face::Bottom),
        Face::Bottom => (Face::Front, Face::Back, Face::Left, Face::Right, Face::Top),
        Face::Left => (Face::Top, Face::Bottom, Face::Back, Face::Front, Face::Right),
        Face::Right => (Face::Top, Face::Bottom, Face::Front, Face::Back, Face::Left),
    }
}

/// The neighbouring faces reached by the W/A/S/D cursor keys, and the opposite face.
pub fn wasd_neighbor_faces(face: Face) -> (r: (Face, Face, Face, Face, Face))
    ensures
        r == wasd_neighbors(face),
{
    match face {
        Face::Front => (Face::Bottom, Face::Top, Face::Left, Face::Right, Face::Back),
        Face::Back => (Face::Left, Face::Right, Face::Bottom, Face::Top, Face::Front),
        Face::Top => (Face::Back, Face::Front, Face::Left, Face::Right, Face::Bottom),
        Face::Bottom => (Face::Left, Face::Right, Face::Back, Face::Front, Face::Top),
        Face::Left => (Face::Bottom, Face::Top, Face::Back, Face::Front, Face::Right),
        Face::Right => (Face::Back, Face::Front, Face::Bottom, Face::Top, Face::Left),
    }
}

/// The neighbouring faces reached by the arrow keys, and the opposite face.
pub fn arrow_neighbor_faces(face: Face) -> (r: (Face, Face, Face, Face, Face))
    ensures
        r == arrow_neighbors(face),
{
    match face {
        Face::Front => (Face::Top, Face::Bottom, Face::Left, Face::Right, Face::Back),
        Face::Back => (Face::Top, Face::Bottom, Face::Right, Face::Left, Face::Front),
        Face::Top => (Face::Back, Face::Front, Face::Left, Face::Right, Face::Bottom),
        Face::Bottom => (Face::Front, Face::Back, Face::Left, Face::Right, Face::Top),
        Face::Left => (Face::Top, Face::Bottom, Face::Back, Face::Front, Face::Right),
        Face::Right => (Face::Top, Face::Bottom, Face::Front, Face::Back, Face::Left),
    }
}

/// The arrow-key neighbours agree with switching faces: up, down, left and right are
/// where `switch_face` goes in those directions.
pub proof fn lemma_arrow_neighbors_match_switch(face: Face)
    ensures
        arrow_neighbors(face).0 == switch_target(face, 0, -1),
        arrow_neighbors(face).1 == switch_target(face, 0, 1),
        arrow_neighbors(face).2 == switch_target(face, -1, 0),
        arrow_neighbors(face).3 == switch_target(face, 1, 0),
{
}

/// The translation key of a face's name.
pub open spec fn face_name_key(face: Face) -> Seq<char> {
    match face {
        Face::Front => "game.face_front"@,
        Face::Back => "game.face_back"@,
        Face::Left => "game.face_left"@,
        Face::Right => "game.face_right"@,
        Face::Top => "game.face_top"@,
        Face::Bottom => "game.face_bottom"@,
    }
}

/// The translated name of a face.
pub fn face_name(face: Face, lang: Lang) -> (r: &'static str)
    ensures
        r@ == translation(face_name_key(face), lang),
{
    match face {
        Face::Front => t("game.face_front", lang),
        Face::Back => t("game.face_back", lang),
        Face::Left => t("game.face_left", lang),
        Face::Right => t("game.face_right", lang),
        Face::Top => t("game.face_top", lang),
        Face::Bottom => t("game.face_bottom", lang),
    }
}

/// The name of every face, in every language, starts with the face's one-letter code (what
/// `Face::short_code` gives), so the six names of a language all differ.
pub proof fn lemma_face_names(lang: Lang)
    ensures
        forall|f: Face| #[trigger] starts_with(translation(face_name_key(f), lang), face_code(f)),
        forall|f: Face|
            #![trigger translation(face_name_key(f), lang)]
            translation(face_name_key(f), lang).len() >= 1 && translation(face_name_key(f), lang)[0] == face_code(f)[0]
                && face_code(f).len() == 1,
        forall|f: Face, g: Face|
            f != g ==> #[trigger] translation(face_name_key(f), lang) != #[trigger] translation(face_name_key(g), lang),
{
    reveal_strlit("menu.new_easy");
    reveal_strlit("menu.new_medium");
    reveal_strlit("menu.new_hard");
    reveal_strlit("menu.settings");
    reveal_strlit("menu.continue");
    reveal_strlit("menu.completed");
    reveal_strlit("menu.in_progress");
    reveal_strlit("menu.hint_nav");
    reveal_strlit("settings.title");
    reveal_strlit("settings.hint");
    reveal_strlit("game.face_front");
    reveal_strlit("game.face_back");
    reveal_strlit("game.face_left");
    reveal_strlit("game.face_right");
    reveal_strlit("game.face_top");
    reveal_strlit("game.face_bottom");
    reveal_strlit("F前");
    reveal_strlit("F-Front");
    reveal_strlit("F-前");
    reveal_strlit("B后");
    reveal_strlit("B-Back");
    reveal_strlit("B-後");
    reveal_strlit("L左");
    reveal_strlit("L-Left");
    reveal_strlit("L-左");
    reveal_strlit("R右");
    reveal_strlit("R-Right");
    reveal_strlit("R-右");
    reveal_strlit("T上");
    reveal_strlit("T-Top");
    reveal_strlit("T-上");
    reveal_strlit("U下");
    reveal_strlit("U-Bottom");
    reveal_strlit("U-下");
    reveal_strlit("F");
    reveal_strlit("B");
    reveal_strlit("L");
    reveal_strlit("R");
    reveal_strlit("T");
    reveal_strlit("U");
    assert forall|f: Face|
        #![trigger translation(face_name_key(f), lang)]
        translation(face_name_key(f), lang).len() >= 1 && translation(face_name_key(f), lang)[0] == face_code(f)[0]
            && face_code(f).len() == 1 by {
        match f {
            Face::Front => {
                assert("game.face_front"@[0] != "menu.new_easy"@[0]);
                assert("game.face_front"@[0] != "menu.new_medium"@[0]);
                assert("game.face_front"@[0] != "menu.new_hard"@[0]);
                assert("game.face_front"@[0] != "menu.settings"@[0]);
                assert("game.face_front"@[0] != "menu.continue"@[0]);
                assert("game.face_front"@[0] != "menu.completed"@[0]);
                assert("game.face_front"@[0] != "menu.in_progress"@[0]);
                assert("game.face_front"@[0] != "menu.hint_nav"@[0]);
                assert("game.face_front"@[0] != "settings.title"@[0]);
                assert("game.face_front"@[0] != "settings.hint"@[0]);
                assert(translation(face_name_key(Face::Front), lang) == pick(lang, "F前"@, "F-Front"@, "F-前"@));
            },
            Face::Back => {
                assert("game.face_back"@[0] != "menu.new_easy"@[0]);
                assert("game.face_back"@[0] != "menu.new_medium"@[0]);
                assert("game.face_back"@[0] != "menu.new_hard"@[0]);
                assert("game.face_back"@[0] != "menu.settings"@[0]);
                assert("game.face_back"@[0] != "menu.continue"@[0]);
                assert("game.face_back"@[0] != "menu.completed"@[0]);
                assert("game.face_back"@[0] != "menu.in_progress"@[0]);
                assert("game.face_back"@[0] != "menu.hint_nav"@[0]);
                assert("game.face_back"@[0] != "settings.title"@[0]);
                assert("game.face_back"@[0] != "settings.hint"@[0]);
                assert("game.face_back"@[10] != "game.face_front"@[10]);
                assert(translation(face_name_key(Face::Back), lang) == pick(lang, "B后"@, "B-Back"@, "B-後"@));
            },
            Face::Left => {
                assert("game.face_left"@[0] != "menu.new_easy"@[0]);
                assert("game.face_left"@[0] != "menu.new_medium"@[0]);
                assert("game.face_left"@[0] != "menu.new_hard"@[0]);
                assert("game.face_left"@[0] != "menu.settings"@[0]);
                assert("game.face_left"@[0] != "menu.continue"@[0]);
                assert("game.face_left"@[0] != "menu.completed"@[0]);
                assert("game.face_left"@[0] != "menu.in_progress"@[0]);
                assert("game.face_left"@[0] != "menu.hint_nav"@[0]);
                assert("game.face_left"@[0] != "settings.title"@[0]);
                assert("game.face_left"@[0] != "settings.hint"@[0]);
                assert("game.face_left"@[10] != "game.face_front"@[10]);
                assert("game.face_left"@[10] != "game.face_back"@[10]);
                assert(translation(face_name_key(Face::Left), lang) == pick(lang, "L左"@, "L-Left"@, "L-左"@));
            },
            Face::Right => {
                assert("game.face_right"@[0] != "menu.new_easy"@[0]);
                assert("game.face_right"@[0] != "menu.new_medium"@[0]);
                assert("game.face_right"@[0] != "menu.new_hard"@[0]);
                assert("game.face_right"@[0] != "menu.settings"@[0]);
                assert("game.face_right"@[0] != "menu.continue"@[0]);
                assert("game.face_right"@[0] != "menu.completed"@[0]);
                assert("game.face_right"@[0] != "menu.in_progress"@[0]);
                assert("game.face_right"@[0] != "menu.hint_nav"@[0]);
                assert("game.face_right"@[0] != "settings.title"@[0]);
                assert("game.face_right"@[0] != "settings.hint"@[0]);
                assert("game.face_right"@[10] != "game.face_front"@[10]);
                assert("game.face_right"@[10] != "game.face_back"@[10]);
                assert("game.face_right"@[10] != "game.face_left"@[10]);
                assert(translation(face_name_key(Face::Right), lang) == pick(lang, "R右"@, "R-Right"@, "R-右"@));
            },
            Face::Top => {
                assert("game.face_top"@[0] != "menu.new_easy"@[0]);
                assert("game.face_top"@[0] != "menu.new_medium"@[0]);
                assert("game.face_top"@[0] != "menu.new_hard"@[0]);
                assert("game.face_top"@[0] != "menu.settings"@[0]);
                assert("game.face_top"@[0] != "menu.continue"@[0]);
                assert("game.face_top"@[0] != "menu.completed"@[0]);
                assert("game.face_top"@[0] != "menu.in_progress"@[0]);
                assert("game.face_top"@[0] != "menu.hint_nav"@[0]);
                assert("game.face_top"@[0] != "settings.title"@[0]);
                assert("game.face_top"@[0] != "settings.hint"@[0]);
                assert("game.face_top"@[10] != "game.face_front"@[10]);
                assert("game.face_top"@[10] != "game.face_back"@[10]);
                assert("game.face_top"@[10] != "game.face_left"@[10]);
                assert("game.face_top"@[10] != "game.face_right"@[10]);
                assert(translation(face_name_key(Face::Top), lang) == pick(lang, "T上"@, "T-Top"@, "T-上"@));
            },
            Face::Bottom => {
                assert("game.face_bottom"@[0] != "menu.new_easy"@[0]);
                assert("game.face_bottom"@[0] != "menu.new_medium"@[0]);
                assert("game.face_bottom"@[0] != "menu.new_hard"@[0]);
                assert("game.face_bottom"@[0] != "menu.settings"@[0]);
                assert("game.face_bottom"@[0] != "menu.continue"@[0]);
                assert("game.face_bottom"@[0] != "menu.completed"@[0]);
                assert("game.face_bottom"@[0] != "menu.in_progress"@[0]);
                assert("game.face_bottom"@[0] != "menu.hint_nav"@[0]);
                assert("game.face_bottom"@[0] != "settings.title"@[0]);
                assert("game.face_bottom"@[0] != "settings.hint"@[0]);
                assert("game.face_bottom"@[10] != "game.face_front"@[10]);
                assert("game.face_bottom"@[11] != "game.face_back"@[11]);
                assert("game.face_bottom"@[10] != "game.face_left"@[10]);
                assert("game.face_bottom"@[10] != "game.face_right"@[10]);
                assert("game.face_bottom"@[10] != "game.face_top"@[10]);
                assert(translation(face_name_key(Face::Bottom), lang) == pick(lang, "U下"@, "U-Bottom"@, "U-下"@));
            },
        }
    }
    assert forall|f: Face| #[trigger] starts_with(translation(face_name_key(f), lang), face_code(f)) by {
        assert(translation(face_name_key(f), lang)[0] == face_code(f)[0]);
        assert(translation(face_name_key(f), lang).subrange(0, 1) =~= face_code(f));
    }
    assert forall|f: Face, g: Face|
        f != g implies #[trigger] translation(face_name_key(f), lang) != #[trigger] translation(face_name_key(g), lang) by {
        assert(translation(face_name_key(f), lang)[0] == face_code(f)[0]);
        assert(translation(face_name_key(g), lang)[0] == face_code(g)[0]);
    }
}

} // verus!
