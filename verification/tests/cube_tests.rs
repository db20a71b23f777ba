use sudokube::cube::{are_related, iter_surface_coords, CubeCoord, Difficulty, Face, FaceCoord};

#[test]
fn surface_count_is_386() {
    let coords: Vec<_> = iter_surface_coords();
    assert_eq!(coords.len(), 386);
}

#[test]
fn coord_round_trip() {
    for cube in iter_surface_coords() {
        let face_coords = cube.to_face_coords();
        for fc in face_coords {
            assert_eq!(fc.to_cube(), cube);
        }
    }
}

#[test]
fn related_does_not_contain_self() {
    let c = CubeCoord { x: 8, y: 4, z: 4 };
    let rel = c.related();
    assert!(!rel.contains(&c));
}

#[test]
fn face_centre_has_twenty_related_cells() {
    let c = CubeCoord { x: 8, y: 4, z: 4 };
    let rel = c.related();
    assert_eq!(rel.len(), 20);
    for d in &rel {
        assert!(are_related(c, *d));
    }
}

#[test]
fn corner_lies_on_three_faces() {
    let c = CubeCoord { x: 0, y: 0, z: 0 };
    assert!(c.is_surface());
    assert_eq!(c.to_face_coords().len(), 3);
    let inner = CubeCoord { x: 4, y: 4, z: 4 };
    assert!(!inner.is_surface());
    assert!(inner.to_face_coords().is_empty());
}

#[test]
fn face_to_cube_positions() {
    assert_eq!(Face::Front.to_cube(2, 3), CubeCoord { x: 2, y: 3, z: 8 });
    assert_eq!(Face::Left.to_cube(2, 3), CubeCoord { x: 0, y: 3, z: 2 });
    let fc = FaceCoord { face: Face::Top, u: 1, v: 7 };
    assert_eq!(fc.to_cube(), CubeCoord { x: 1, y: 8, z: 7 });
}

#[test]
fn face_rows_columns_and_boxes() {
    let row = Face::Front.row(0);
    assert_eq!(row.len(), 9);
    let col = Face::Front.col(8);
    assert_eq!(col.len(), 9);
    let b = Face::Back.box_coords(1, 1);
    assert_eq!(b.len(), 9);
    assert!(b.contains(&Face::Back.to_cube(4, 4)));
    assert_eq!(Face::Back.box_at(4, 4), b);
}

#[test]
fn difficulty_values() {
    assert_eq!(Difficulty::Easy.hidden_count(), 100);
    assert_eq!(Difficulty::Medium.hidden_count(), 160);
    assert_eq!(Difficulty::Hard.hidden_count(), 280);
    assert_eq!(Difficulty::Hard.as_str(), "困难");
    assert_eq!(Face::Right.short_code(), "R");
}

#[test]
fn shared_edges_of_front() {
    let edges = Face::Front.shared_edges();
    assert_eq!(edges.len(), 4);
}

#[test]
fn shared_edges_name_the_faces_across_them() {
    let e = Face::Right.shared_edges();
    // the min-v border of the right face lies on the back face
    assert_eq!(e[0].neighbor, Face::Back);
    let c = Face::Right.to_cube(5, 0);
    assert_eq!(c, CubeCoord { x: 8, y: 5, z: 0 });
    assert_eq!(e[0].neighbor.to_cube(5, e[0].index), c);
    assert_eq!(Face::Front.shared_edges()[0].neighbor, Face::Bottom);
    let f0 = Face::Front.shared_edges()[0];
    assert!(!f0.along_u);
    assert_eq!(f0.neighbor.to_cube(f0.index, 3), Face::Front.to_cube(3, 0));
    for face in [Face::Right, Face::Left, Face::Top, Face::Bottom, Face::Front, Face::Back] {
        let edges = face.shared_edges();
        for t in 0..9u8 {
            let borders = [face.to_cube(t, 0), face.to_cube(t, 8), face.to_cube(0, t), face.to_cube(8, t)];
            for k in 0..4 {
                let e = edges[k];
                let line = if e.along_u { e.neighbor.to_cube(t, e.index) } else { e.neighbor.to_cube(e.index, t) };
                assert_eq!(line, borders[k]);
            }
        }
    }
    let corner = CubeCoord { x: 8, y: 4, z: 8 };
    let ext = corner.extended_related();
    assert!(ext.contains(&CubeCoord { x: 8, y: 0, z: 8 }));
    assert!(!ext.contains(&corner));
}

fn union_of_units(c: CubeCoord) -> Vec<CubeCoord> {
    let mut all: Vec<CubeCoord> = Vec::new();
    for fc in c.to_face_coords() {
        let mut cells = fc.face.row(fc.v);
        cells.extend(fc.face.col(fc.u));
        cells.extend(fc.face.box_at(fc.u, fc.v));
        for d in cells {
            if d != c && !all.contains(&d) {
                all.push(d);
            }
        }
    }
    all
}

#[test]
fn related_is_the_union_of_rows_columns_and_boxes() {
    let samples = [
        CubeCoord { x: 8, y: 4, z: 4 },
        CubeCoord { x: 0, y: 0, z: 0 },
        CubeCoord { x: 8, y: 8, z: 3 },
        CubeCoord { x: 2, y: 0, z: 7 },
    ];
    for c in samples {
        let rel = c.related();
        let union = union_of_units(c);
        assert_eq!(rel.len(), union.len());
        for d in &union {
            assert!(rel.contains(d));
        }
        for (i, d) in rel.iter().enumerate() {
            assert!(!rel[i + 1..].contains(d));
        }
        assert!(!rel.contains(&c));
    }
}

#[test]
fn related_goes_both_ways() {
    let all = iter_surface_coords();
    let a = CubeCoord { x: 8, y: 8, z: 8 };
    let rel_a = a.related();
    for b in &all {
        let rel_b = b.related();
        assert_eq!(rel_a.contains(b), rel_b.contains(&a));
    }
    let corner_rel = CubeCoord { x: 0, y: 0, z: 0 }.related();
    assert_eq!(corner_rel.len(), 36);
}
