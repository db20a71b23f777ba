//! Cube surface geometry: coordinates, faces and face-local coordinates.

use vstd::prelude::*;

verus! {

/// A cell of the cube surface, as a point of the 9×9×9 lattice.
/// Every coordinate lies in `0..9` and at least one of them is `0` or `8`.
#[derive(Debug, Clone, Copy, PartialEq, Eq, Hash, Structural)]
pub struct CubeCoord {
    pub x: u8,
    pub y: u8,
    pub z: u8,
}

/// The six faces of the cube.
#[derive(Debug, Clone, Copy, PartialEq, Eq, Hash, Structural)]
pub enum Face {
    /// `+X`, `x == 8`
    Right,
    /// `-X`, `x == 0`
    Left,
    /// `+Y`, `y == 8`
    Top,
    /// `-Y`, `y == 0`
    Bottom,
    /// `+Z`, `z == 8`
    Front,
    /// `-Z`, `z == 0`
    Back,
}

/// A face together with a local `(u, v)` position on it.
#[derive(Debug, Clone, Copy, PartialEq, Eq, Hash, Structural)]
pub struct FaceCoord {
    pub face: Face,
    pub u: u8,
    pub v: u8,
}

impl CubeCoord {
    /// All three coordinates lie in `0..9`.
    pub open spec fn in_box(self) -> bool {
        self.x < 9 && self.y < 9 && self.z < 9
    }

    /// The coordinate lies on the surface of the cube.
    pub open spec fn on_surface(self) -> bool {
        &&& self.in_box()
        &&& (self.x == 0 || self.x == 8 || self.y == 0 || self.y == 8 || self.z == 0 || self.z
            == 8)
    }

    /// Position of an in-box coordinate in the dense `x, y, z` ordering of the lattice.
    pub open spec fn slot(self) -> int {
        self.x * 81 + self.y * 9 + self.z
    }
}

/// The lattice coordinate stored at a dense slot index.
pub open spec fn coord_at_slot(i: int) -> CubeCoord {
    CubeCoord { x: (i / 81) as u8, y: ((i % 81) / 9) as u8, z: (i % 9) as u8 }
}

/// Number of lattice points of the 9×9×9 box.
pub const BOX_SLOTS: usize = 729;

/// Slot numbering is a bijection between in-box coordinates and `0..729`.
pub proof fn lemma_slot_bijection(c: CubeCoord, i: int)
    ensures
        c.in_box() ==> 0 <= c.slot() < 729 && coord_at_slot(c.slot()) == c,
        0 <= i < 729 ==> coord_at_slot(i).in_box() && coord_at_slot(i).slot() == i,
{
    if c.in_box() {
        let s = c.slot();
        assert(s / 81 == c.x) by (nonlinear_arith)
            requires s == c.x * 81 + c.y * 9 + c.z, c.y < 9, c.z < 9, c.x < 9;
        assert(s % 81 == c.y * 9 + c.z) by (nonlinear_arith)
            requires s == c.x * 81 + c.y * 9 + c.z, c.y < 9, c.z < 9, c.x < 9;
        assert((c.y * 9 + c.z) / 9 == c.y) by (nonlinear_arith)
            requires c.z < 9, c.y < 9;
        assert(s % 9 == c.z) by (nonlinear_arith)
            requires s == c.x * 81 + c.y * 9 + c.z, c.y < 9, c.z < 9, c.x < 9;
    }
    if 0 <= i < 729 {
        assert(i == (i / 81) * 81 + ((i % 81) / 9) * 9 + i % 9 && i / 81 < 9) by (nonlinear_arith)
            requires 0 <= i < 729;
    }
}

/// Distinct in-box coordinates have distinct slots.
pub proof fn lemma_slot_injective(a: CubeCoord, b: CubeCoord)
    requires
        a.in_box(),
        b.in_box(),
        a.slot() == b.slot(),
    ensures
        a == b,
{
    lemma_slot_bijection(a, 0);
    lemma_slot_bijection(b, 0);
}

/// Dense slot of an in-box coordinate.
pub fn slot_of(c: CubeCoord) -> (r: usize)
    requires
        c.in_box(),
    ensures
        r == c.slot(),
        r < 729,
{
    (c.x as usize) * 81 + (c.y as usize) * 9 + (c.z as usize)
}

/// Coordinate stored at a dense slot.
pub fn coord_from_slot(i: usize) -> (c: CubeCoord)
    requires
        i < 729,
    ensures
        c == coord_at_slot(i as int),
        c.in_box(),
        c.slot() == i,
{
    proof {
        lemma_slot_bijection(coord_at_slot(i as int), i as int);
    }
    CubeCoord { x: (i / 81) as u8, y: ((i % 81) / 9) as u8, z: (i % 9) as u8 }
}


impl Face {
    /// The faces in their canonical order.
    pub open spec fn spec_all() -> Seq<Face> {
        seq![Face::Right, Face::Left, Face::Top, Face::Bottom, Face::Front, Face::Back]
    }

    /// Position of the face in the canonical order.
    pub open spec fn index(self) -> int {
        match self {
            Face::Right => 0,
            Face::Left => 1,
            Face::Top => 2,
            Face::Bottom => 3,
            Face::Front => 4,
            Face::Back => 5,
        }
    }

    /// The lattice point at local position `(u, v)` of this face.
    pub open spec fn cube_at(self, u: u8, v: u8) -> CubeCoord {
        match self {
            Face::Right => CubeCoord { x: 8, y: u, z: v },
            Face::Left => CubeCoord { x: 0, y: v, z: u },
            Face::Top => CubeCoord { x: u, y: 8, z: v },
            Face::Bottom => CubeCoord { x: v, y: 0, z: u },
            Face::Front => CubeCoord { x: u, y: v, z: 8 },
            Face::Back => CubeCoord { x: v, y: u, z: 0 },
        }
    }

    /// The coordinate lies in the plane of this face.
    pub open spec fn holds(self, c: CubeCoord) -> bool {
        match self {
            Face::Right => c.x == 8,
            Face::Left => c.x == 0,
            Face::Top => c.y == 8,
            Face::Bottom => c.y == 0,
            Face::Front => c.z == 8,
            Face::Back => c.z == 0,
        }
    }

    /// Local `u` of a coordinate that lies on this face.
    pub open spec fn local_u(self, c: CubeCoord) -> u8 {
        match self {
            Face::Right => c.y,
            Face::Left => c.z,
            Face::Top => c.x,
            Face::Bottom => c.z,
            Face::Front => c.x,
            Face::Back => c.y,
        }
    }

    /// Local `v` of a coordinate that lies on this face.
    pub open spec fn local_v(self, c: CubeCoord) -> u8 {
        match self {
            Face::Right => c.z,
            Face::Left => c.y,
            Face::Top => c.z,
            Face::Bottom => c.x,
            Face::Front => c.y,
            Face::Back => c.x,
        }
    }

    /// The face-local coordinate of `c` on this face.
    pub open spec fn local(self, c: CubeCoord) -> FaceCoord {
        FaceCoord { face: self, u: self.local_u(c), v: self.local_v(c) }
    }

    /// The faces in their canonical order: Right, Left, Top, Bottom, Front, Back.
    pub fn all() -> (r: [Face; 6])
        ensures
            r@ == Face::spec_all(),
    {
        let r = [Face::Right, Face::Left, Face::Top, Face::Bottom, Face::Front, Face::Back];
        assert(r@ =~= Face::spec_all());
        r
    }

    /// One-letter code: F, B, L, R, T, U (bottom).
    pub fn short_code(&self) -> (r: &'static str)
        ensures
            r@ == face_code(*self),
    {
        match self {
            Face::Front => "F",
            Face::Back => "B",
            Face::Left => "L",
            Face::Right => "R",
            Face::Top => "T",
            Face::Bottom => "U",
        }
    }

    /// The lattice point at local position `(u, v)` of this face.
    pub fn to_cube(&self, u: u8, v: u8) -> (c: CubeCoord)
        ensures
            c == self.cube_at(u, v),
    {
        match self {
            Face::Right => CubeCoord { x: 8, y: u, z: v },
            Face::Left => CubeCoord { x: 0, y: v, z: u },
            Face::Top => CubeCoord { x: u, y: 8, z: v },
            Face::Bottom => CubeCoord { x: v, y: 0, z: u },
            Face::Front => CubeCoord { x: u, y: v, z: 8 },
            Face::Back => CubeCoord { x: v, y: u, z: 0 },
        }
    }
}

/// Placing a local position on a face and reading it back gives the position again,
/// and the placed point lies on the face and, for positions in `0..9`, on the surface.
pub proof fn lemma_cube_at_local(f: Face, u: u8, v: u8)
    ensures
        f.holds(f.cube_at(u, v)),
        f.local(f.cube_at(u, v)) == (FaceCoord { face: f, u, v }),
        u < 9 && v < 9 ==> f.cube_at(u, v).on_surface(),
{
}

/// A point of a face is the placement of its own local position.
pub proof fn lemma_local_cube_at(f: Face, c: CubeCoord)
    requires
        f.holds(c),
    ensures
        f.cube_at(f.local_u(c), f.local_v(c)) == c,
{
}

impl FaceCoord {
    /// The lattice point this face-local coordinate denotes.
    pub open spec fn spec_cube(self) -> CubeCoord {
        self.face.cube_at(self.u, self.v)
    }

    /// The lattice point this face-local coordinate denotes.
    pub fn to_cube(&self) -> (c: CubeCoord)
        ensures
            c == self.spec_cube(),
    {
        self.face.to_cube(self.u, self.v)
    }
}

/// Face-local coordinates of `c` on the two faces orthogonal to the x axis.
pub open spec fn locals_x(c: CubeCoord) -> Seq<FaceCoord> {
    if c.x == 8 {
        seq![Face::Right.local(c)]
    } else if c.x == 0 {
        seq![Face::Left.local(c)]
    } else {
        seq![]
    }
}

/// Face-local coordinates of `c` on the two faces orthogonal to the y axis.
pub open spec fn locals_y(c: CubeCoord) -> Seq<FaceCoord> {
    if c.y == 8 {
        seq![Face::Top.local(c)]
    } else if c.y == 0 {
        seq![Face::Bottom.local(c)]
    } else {
        seq![]
    }
}

/// Face-local coordinates of `c` on the two faces orthogonal to the z axis.
pub open spec fn locals_z(c: CubeCoord) -> Seq<FaceCoord> {
    if c.z == 8 {
        seq![Face::Front.local(c)]
    } else if c.z == 0 {
        seq![Face::Back.local(c)]
    } else {
        seq![]
    }
}

/// All face-local coordinates of `c`, in the canonical face order.
pub open spec fn face_coords_of(c: CubeCoord) -> Seq<FaceCoord> {
    locals_x(c) + locals_y(c) + locals_z(c)
}

impl CubeCoord {
    /// Whether this is a legal surface coordinate.
    pub fn is_surface(&self) -> (r: bool)
        ensures
            r == self.on_surface(),
    {
        self.x < 9 && self.y < 9 && self.z < 9 && (self.x == 0 || self.x == 8 || self.y == 0
            || self.y == 8 || self.z == 0 || self.z == 8)
    }

    /// All face-local coordinates of this point (one to three of them on the surface),
    /// in the order Right, Left, Top, Bottom, Front, Back.
    pub fn to_face_coords(&self) -> (r: Vec<FaceCoord>)
        ensures
            r@ == face_coords_of(*self),
    {
        let c = *self;
        let mut result: Vec<FaceCoord> = Vec::with_capacity(3);
        if self.x == 8 {
            result.push(FaceCoord { face: Face::Right, u: self.y, v: self.z });
        }
        if self.x == 0 {
            result.push(FaceCoord { face: Face::Left, u: self.z, v: self.y });
        }
        assert(result@ =~= locals_x(c));
        let ghost s1 = result@;
        if self.y == 8 {
            result.push(FaceCoord { face: Face::Top, u: self.x, v: self.z });
        }
        if self.y == 0 {
            result.push(FaceCoord { face: Face::Bottom, u: self.z, v: self.x });
        }
        assert(result@ =~= s1 + locals_y(c));
        let ghost s2 = result@;
        if self.z == 8 {
            result.push(FaceCoord { face: Face::Front, u: self.x, v: self.y });
        }
        if self.z == 0 {
            result.push(FaceCoord { face: Face::Back, u: self.y, v: self.x });
        }
        assert(result@ =~= s2 + locals_z(c));
        result
    }
}

/// Every face-local coordinate of a point maps back to that point and lies on a face that
/// holds the point.
pub proof fn lemma_face_coords_sound(c: CubeCoord)
    ensures
        forall|i: int|
            0 <= i < face_coords_of(c).len() ==> (#[trigger] face_coords_of(c)[i]).spec_cube()
                == c && face_coords_of(c)[i].face.holds(c) && face_coords_of(c)[i]
                == face_coords_of(c)[i].face.local(c),
{
    let a = locals_x(c);
    let b = locals_y(c);
    let d = locals_z(c);
    let s = face_coords_of(c);
    assert forall|i: int| 0 <= i < s.len() implies (#[trigger] s[i]).spec_cube() == c
        && s[i].face.holds(c) && s[i] == s[i].face.local(c) by {
        if i < a.len() {
            assert(s[i] == a[i]);
        } else if i < a.len() + b.len() {
            assert(s[i] == b[i - a.len()]);
        } else {
            assert(s[i] == d[i - a.len() - b.len()]);
        }
    }
}

/// A point has a face-local coordinate on exactly the faces that hold it.
pub proof fn lemma_face_coords_complete(c: CubeCoord)
    ensures
        forall|f: Face| f.holds(c) <==> face_coords_of(c).contains(#[trigger] f.local(c)),
        c.on_surface() ==> 1 <= face_coords_of(c).len() <= 3,
{
    let a = locals_x(c);
    let b = locals_y(c);
    let d = locals_z(c);
    let s = face_coords_of(c);
    lemma_face_coords_sound(c);
    assert forall|f: Face| f.holds(c) implies s.contains(#[trigger] f.local(c)) by {
        match f {
            Face::Right => assert(s[0] == f.local(c)),
            Face::Left => assert(s[0] == f.local(c)),
            Face::Top => assert(s[a.len() as int] == f.local(c)),
            Face::Bottom => assert(s[a.len() as int] == f.local(c)),
            Face::Front => assert(s[(a.len() + b.len()) as int] == f.local(c)),
            Face::Back => assert(s[(a.len() + b.len()) as int] == f.local(c)),
        }
    }
    assert forall|f: Face| s.contains(#[trigger] f.local(c)) implies f.holds(c) by {
        let i = choose|i: int| 0 <= i < s.len() && s[i] == f.local(c);
        assert(s[i].face == f);
    }
}

/// `a` and `b` both lie on face `f` and share a row, a column or a 3×3 box of it.
pub open spec fn unit_on_face(f: Face, a: CubeCoord, b: CubeCoord) -> bool {
    &&& f.holds(a)
    &&& f.holds(b)
    &&& (f.local_u(a) == f.local_u(b) || f.local_v(a) == f.local_v(b) || (f.local_u(a) / 3
        == f.local_u(b) / 3 && f.local_v(a) / 3 == f.local_v(b) / 3))
}

/// `a` and `b` are constrained against each other by the sudoku rules: on some face that
/// holds both, they share a row, a column or a box.
pub open spec fn constrained(a: CubeCoord, b: CubeCoord) -> bool {
    ||| unit_on_face(Face::Right, a, b)
    ||| unit_on_face(Face::Left, a, b)
    ||| unit_on_face(Face::Top, a, b)
    ||| unit_on_face(Face::Bottom, a, b)
    ||| unit_on_face(Face::Front, a, b)
    ||| unit_on_face(Face::Back, a, b)
}

/// Row `v` of face `f`: the points with local `v`, by increasing `u`.
pub open spec fn row_cells(f: Face, v: u8) -> Seq<CubeCoord> {
    Seq::new(9, |u: int| f.cube_at(u as u8, v))
}

/// Column `u` of face `f`: the points with local `u`, by increasing `v`.
pub open spec fn col_cells(f: Face, u: u8) -> Seq<CubeCoord> {
    Seq::new(9, |v: int| f.cube_at(u, v as u8))
}

/// The 3×3 box of face `f` that contains local position `(u, v)`, row by row.
pub open spec fn box_cells(f: Face, u: u8, v: u8) -> Seq<CubeCoord> {
    Seq::new(9, |k: int| f.cube_at(((u / 3) * 3 + k % 3) as u8, ((v / 3) * 3 + k / 3) as u8))
}

/// The row, the column and the box through face-local position `fc`.
pub open spec fn units_through(fc: FaceCoord) -> Seq<CubeCoord> {
    row_cells(fc.face, fc.v) + col_cells(fc.face, fc.u) + box_cells(fc.face, fc.u, fc.v)
}

/// `d` lies in the row, the column or the box through one of the face-local positions
/// of `c`.
pub open spec fn in_units_of(c: CubeCoord, d: CubeCoord) -> bool {
    exists|i: int|
        0 <= i < face_coords_of(c).len() && #[trigger] units_through(face_coords_of(c)[i]).contains(d)
}

/// On every face that holds `c`, its local position is small enough for the box around
/// it to be counted out in bytes.
pub open spec fn units_fit(c: CubeCoord) -> bool {
    &&& (c.x == 0 || c.x == 8) ==> c.y < 255 && c.z < 255
    &&& (c.y == 0 || c.y == 8) ==> c.x < 255 && c.z < 255
    &&& (c.z == 0 || c.z == 8) ==> c.x < 255 && c.y < 255
}

impl Face {
    /// The face-local coordinate of `c` on this face (meaningful when the face holds `c`).
    pub fn local_of(&self, c: CubeCoord) -> (r: (u8, u8))
        ensures
            r.0 == self.local_u(c),
            r.1 == self.local_v(c),
    {
        match self {
            Face::Right => (c.y, c.z),
            Face::Left => (c.z, c.y),
            Face::Top => (c.x, c.z),
            Face::Bottom => (c.z, c.x),
            Face::Front => (c.x, c.y),
            Face::Back => (c.y, c.x),
        }
    }

    /// Whether the face holds `c`.
    pub fn contains_coord(&self, c: CubeCoord) -> (r: bool)
        ensures
            r == self.holds(c),
    {
        match self {
            Face::Right => c.x == 8,
            Face::Left => c.x == 0,
            Face::Top => c.y == 8,
            Face::Bottom => c.y == 0,
            Face::Front => c.z == 8,
            Face::Back => c.z == 0,
        }
    }

    /// Whether `a` and `b` share a row, column or box of this face.
    pub fn shares_unit(&self, a: CubeCoord, b: CubeCoord) -> (r: bool)
        ensures
            r == unit_on_face(*self, a, b),
    {
        if !self.contains_coord(a) || !self.contains_coord(b) {
            return false;
        }
        let (ua, va) = self.local_of(a);
        let (ub, vb) = self.local_of(b);
        ua == ub || va == vb || (ua / 3 == ub / 3 && va / 3 == vb / 3)
    }

    /// Row `row_idx` of the face: the points with local `v == row_idx`, by increasing `u`.
    pub fn row(&self, row_idx: u8) -> (r: Vec<CubeCoord>)
        ensures
            r@ == row_cells(*self, row_idx),
    {
        let mut r: Vec<CubeCoord> = Vec::with_capacity(9);
        for u in 0..9u8
            invariant
                r@ == Seq::new(u as nat, |i: int| self.cube_at(i as u8, row_idx)),
        {
            r.push(self.to_cube(u, row_idx));
            assert(r@ =~= Seq::new((u + 1) as nat, |i: int| self.cube_at(i as u8, row_idx)));
        }
        r
    }

    /// Column `col_idx` of the face: the points with local `u == col_idx`, by increasing `v`.
    pub fn col(&self, col_idx: u8) -> (r: Vec<CubeCoord>)
        ensures
            r@ == col_cells(*self, col_idx),
    {
        let mut r: Vec<CubeCoord> = Vec::with_capacity(9);
        for v in 0..9u8
            invariant
                r@ == Seq::new(v as nat, |i: int| self.cube_at(col_idx, i as u8)),
        {
            r.push(self.to_cube(col_idx, v));
            assert(r@ =~= Seq::new((v + 1) as nat, |i: int| self.cube_at(col_idx, i as u8)));
        }
        r
    }

    /// The nine points of 3×3 box `(box_u, box_v)`, row by row.
    pub fn box_coords(&self, box_u: u8, box_v: u8) -> (r: Vec<CubeCoord>)
        requires
            box_u * 3 + 3 <= 255,
            box_v * 3 + 3 <= 255,
        ensures
            r@ == Seq::new(
                9,
                |k: int| self.cube_at((box_u * 3 + k % 3) as u8, (box_v * 3 + k / 3) as u8),
            ),
    {
        let base_u = box_u * 3;
        let base_v = box_v * 3;
        let ghost target = Seq::new(
            9,
            |k: int| self.cube_at((box_u * 3 + k % 3) as u8, (box_v * 3 + k / 3) as u8),
        );
        let mut r: Vec<CubeCoord> = Vec::with_capacity(9);
        let mut dv: u8 = 0;
        while dv < 3
            invariant
                dv <= 3,
                base_u == box_u * 3,
                base_v == box_v * 3,
                base_u + 3 <= 255,
                base_v + 3 <= 255,
                r@ == target.take(dv * 3),
                target == Seq::new(
                    9,
                    |k: int| self.cube_at((box_u * 3 + k % 3) as u8, (box_v * 3 + k / 3) as u8),
                ),
            decreases 3 - dv,
        {
            let mut du: u8 = 0;
            while du < 3
                invariant
                    dv < 3,
                    du <= 3,
                    base_u == box_u * 3,
                    base_v == box_v * 3,
                    base_u + 3 <= 255,
                    base_v + 3 <= 255,
                    r@ == target.take(dv * 3 + du),
                    target == Seq::new(
                        9,
                        |k: int| self.cube_at((box_u * 3 + k % 3) as u8, (box_v * 3 + k / 3) as u8),
                    ),
                decreases 3 - du,
            {
                let ghost k: int = dv * 3 + du;
                assert(k % 3 == du && k / 3 == dv) by (nonlinear_arith)
                    requires k == dv * 3 + du, du < 3;
                assert(target[k] == self.cube_at((base_u + du) as u8, (base_v + dv) as u8));
                r.push(self.to_cube(base_u + du, base_v + dv));
                assert(r@ =~= target.take(dv * 3 + du + 1));
                du += 1;
            }
            dv += 1;
        }
        assert(r@ =~= target);
        r
    }

    /// The 3×3 box that contains local position `(u, v)`.
    pub fn box_at(&self, u: u8, v: u8) -> (r: Vec<CubeCoord>)
        requires
            (u / 3) * 3 + 3 <= 255,
            (v / 3) * 3 + 3 <= 255,
        ensures
            r@ == box_cells(*self, u, v),
    {
        self.box_coords(u / 3, v / 3)
    }
}

/// Whether the sudoku rules constrain `a` and `b` against each other: some face holds both
/// and they share a row, a column or a 3×3 box of it.
pub fn are_related(a: CubeCoord, b: CubeCoord) -> (r: bool)
    ensures
        r == constrained(a, b),
{
    Face::Right.shares_unit(a, b) || Face::Left.shares_unit(a, b) || Face::Top.shares_unit(a, b)
        || Face::Bottom.shares_unit(a, b) || Face::Front.shares_unit(a, b)
        || Face::Back.shares_unit(a, b)
}

/// The coordinates, other than `c`, that share a row, a column or a box with `c` on a face
/// holding both.
pub open spec fn related_spec(c: CubeCoord, d: CubeCoord) -> bool {
    d.in_box() && d != c && constrained(c, d)
}

/// The coordinates of `s` appear in strictly increasing slot order.
pub open spec fn slots_increasing(s: Seq<CubeCoord>) -> bool {
    forall|j: int, k: int| 0 <= j < k < s.len() ==> (#[trigger] s[j]).slot() < (#[trigger] s[k]).slot()
}

/// A sequence of coordinates in strictly increasing slot order has no repetition.
pub proof fn lemma_increasing_no_duplicates(s: Seq<CubeCoord>)
    requires
        slots_increasing(s),
    ensures
        s.no_duplicates(),
{
    assert forall|j: int, k: int| 0 <= j < s.len() && 0 <= k < s.len() && j != k implies s[j]
        != s[k] by {
        if j < k {
            assert(s[j].slot() < s[k].slot());
        } else {
            assert(s[k].slot() < s[j].slot());
        }
    }
}

/// Pushing a coordinate keeps what the sequence held.
pub proof fn lemma_push_contains(s: Seq<CubeCoord>, d: CubeCoord, e: CubeCoord)
    ensures
        s.push(d).contains(e) <==> (s.contains(e) || e == d),
{
    if s.contains(e) {
        let k = choose|k: int| 0 <= k < s.len() && s[k] == e;
        assert(s.push(d)[k] == e);
    }
    if e == d {
        assert(s.push(d)[s.len() as int] == e);
    }
    if s.push(d).contains(e) {
        let k = choose|k: int| 0 <= k < s.push(d).len() && s.push(d)[k] == e;
        if k < s.len() {
            assert(s[k] == e);
        }
    }
}

/// The number of slots below `n` whose coordinate `p` accepts.
pub open spec fn count_accepted(p: spec_fn(CubeCoord) -> bool, n: int) -> nat
    decreases n,
{
    if n <= 0 {
        0
    } else {
        count_accepted(p, n - 1) + (if p(coord_at_slot(n - 1)) {
            1nat
        } else {
            0nat
        })
    }
}

/// The in-box coordinates accepted by `pred`, by increasing slot.
fn filter_box<F: Fn(CubeCoord) -> bool>(pred: F, Ghost(p): Ghost<spec_fn(CubeCoord) -> bool>) -> (r:
    Vec<CubeCoord>)
    requires
        forall|d: CubeCoord| d.in_box() ==> #[trigger] pred.requires((d,)),
        forall|d: CubeCoord, b: bool| d.in_box() && #[trigger] pred.ensures((d,), b) ==> b == p(d),
    ensures
        r@.no_duplicates(),
        slots_increasing(r@),
        forall|d: CubeCoord| #[trigger] r@.contains(d) <==> (d.in_box() && p(d)),
        r@.len() == count_accepted(p, 729),
{
    let mut r: Vec<CubeCoord> = Vec::new();
    let mut i: usize = 0;
    while i < 729
        invariant
            i <= 729,
            forall|d: CubeCoord| d.in_box() ==> #[trigger] pred.requires((d,)),
            forall|d: CubeCoord, b: bool|
                d.in_box() && #[trigger] pred.ensures((d,), b) ==> b == p(d),
            slots_increasing(r@),
            r@.len() == count_accepted(p, i as int),
            forall|k: int|
                0 <= k < r@.len() ==> (#[trigger] r@[k]).slot() < i && r@[k].in_box() && p(r@[k]),
            forall|d: CubeCoord| d.in_box() && d.slot() < i && p(d) ==> r@.contains(d),
        decreases 729 - i,
    {
        let d = coord_from_slot(i);
        let keep = pred(d);
        if keep {
            let ghost old_r = r@;
            r.push(d);
            proof {
                assert forall|e: CubeCoord|
                    e.in_box() && e.slot() < i + 1 && p(e) implies r@.contains(e) by {
                    lemma_push_contains(old_r, d, e);
                    if e.slot() == i {
                        lemma_slot_injective(e, d);
                    }
                }
            }
        } else {
            proof {
                assert forall|e: CubeCoord|
                    e.in_box() && e.slot() < i + 1 && p(e) implies r@.contains(e) by {
                    if e.slot() == i {
                        lemma_slot_injective(e, d);
                    }
                }
            }
        }
        i += 1;
    }
    proof {
        lemma_increasing_no_duplicates(r@);
        assert forall|d: CubeCoord| #[trigger] r@.contains(d) <==> (d.in_box() && p(d)) by {
            lemma_slot_bijection(d, 0);
            if r@.contains(d) {
                let k = choose|k: int| 0 <= k < r@.len() && r@[k] == d;
            }
        }
    }
    r
}

/// Whether `v` holds `d`.
fn holds_coord(v: &Vec<CubeCoord>, d: CubeCoord) -> (r: bool)
    ensures
        r == v@.contains(d),
{
    let mut i: usize = 0;
    while i < v.len()
        invariant
            i <= v@.len(),
            forall|k: int| 0 <= k < i ==> v@[k] != d,
        decreases v@.len() - i,
    {
        if v[i] == d {
            return true;
        }
        i = i + 1;
    }
    false
}

/// Appends to `out` each coordinate of `items`, other than `skip`, that `out` lacks.
fn add_new_coords(out: &mut Vec<CubeCoord>, items: &Vec<CubeCoord>, skip: CubeCoord)
    requires
        old(out)@.no_duplicates(),
        !old(out)@.contains(skip),
    ensures
        final(out)@.no_duplicates(),
        !final(out)@.contains(skip),
        forall|d: CubeCoord|
            #[trigger] final(out)@.contains(d) <==> (old(out)@.contains(d) || (d != skip
                && items@.contains(d))),
{
    let ghost start = out@;
    let mut i: usize = 0;
    while i < items.len()
        invariant
            i <= items@.len(),
            out@.no_duplicates(),
            !out@.contains(skip),
            forall|d: CubeCoord|
                #[trigger] out@.contains(d) <==> (start.contains(d) || (d != skip
                    && items@.take(i as int).contains(d))),
        decreases items@.len() - i,
    {
        let d = items[i];
        let ghost before = out@;
        if d != skip && !holds_coord(out, d) {
            out.push(d);
        }
        proof {
            assert forall|e: CubeCoord|
                #[trigger] out@.contains(e) <==> (start.contains(e) || (e != skip
                    && items@.take(i + 1).contains(e))) by {
                lemma_push_contains(items@.take(i as int), d, e);
                assert(items@.take(i + 1) =~= items@.take(i as int).push(d));
                lemma_push_contains(before, d, e);
            }
        }
        i = i + 1;
    }
    proof {
        assert(items@.take(items@.len() as int) =~= items@);
    }
}

impl CubeCoord {
    /// All coordinates related to this one by the sudoku rules: on each face that holds
    /// it, the row, the column and the box through it; without repetition and without the
    /// coordinate itself.
    pub fn related(&self) -> (r: Vec<CubeCoord>)
        requires
            units_fit(*self),
        ensures
            r@.no_duplicates(),
            forall|d: CubeCoord| #[trigger] r@.contains(d) <==> (d != *self && in_units_of(*self, d)),
            self.in_box() ==> forall|d: CubeCoord| r@.contains(d) <==> related_spec(*self, d),
    {
        let c = *self;
        let fcs = self.to_face_coords();
        let mut out: Vec<CubeCoord> = Vec::new();
        proof {
            lemma_face_coords_sound(c);
        }
        let mut i: usize = 0;
        while i < fcs.len()
            invariant
                fcs@ == face_coords_of(c),
                units_fit(c),
                i <= fcs@.len(),
                out@.no_duplicates(),
                !out@.contains(c),
                forall|k: int|
                    0 <= k < fcs@.len() ==> (#[trigger] fcs@[k]).face.holds(c) && fcs@[k]
                        == fcs@[k].face.local(c),
                forall|d: CubeCoord|
                    #[trigger] out@.contains(d) <==> (d != c && exists|k: int|
                        0 <= k < i && #[trigger] units_through(fcs@[k]).contains(d)),
            decreases fcs@.len() - i,
        {
            let fc = fcs[i];
            assert(fc.u < 255 && fc.v < 255) by {
                assert(fc.face.holds(c));
            }
            let ghost before = out@;
            let row = fc.face.row(fc.v);
            add_new_coords(&mut out, &row, c);
            let col = fc.face.col(fc.u);
            add_new_coords(&mut out, &col, c);
            let bx = fc.face.box_at(fc.u, fc.v);
            add_new_coords(&mut out, &bx, c);
            proof {
                let units = units_through(fc);
                assert forall|d: CubeCoord| #[trigger] out@.contains(d) <==> (d != c && exists|k: int|
                    0 <= k < i + 1 && #[trigger] units_through(fcs@[k]).contains(d)) by {
                    lemma_concat_contains(row@, col@, d);
                    lemma_concat_contains(row@ + col@, bx@, d);
                    if d != c && exists|k: int| 0 <= k < i + 1 && #[trigger] units_through(fcs@[k]).contains(d) {
                        let k = choose|k: int| 0 <= k < i + 1 && #[trigger] units_through(fcs@[k]).contains(d);
                        if k < i {
                            assert(before.contains(d));
                        }
                    }
                }
            }
            i = i + 1;
        }
        proof {
            assert forall|d: CubeCoord| #[trigger] out@.contains(d) <==> (d != c && in_units_of(c, d)) by {
                if d != c && in_units_of(c, d) {
                    let k = choose|k: int|
                        0 <= k < face_coords_of(c).len() && #[trigger] units_through(face_coords_of(c)[k]).contains(d);
                    assert(units_through(fcs@[k]).contains(d));
                }
            }
            if c.in_box() {
                assert forall|d: CubeCoord| out@.contains(d) <==> related_spec(c, d) by {
                    lemma_related_units(c, d);
                }
            }
        }
        out
    }
}

/// An element of a concatenation is an element of one of its parts.
proof fn lemma_concat_contains(a: Seq<CubeCoord>, b: Seq<CubeCoord>, d: CubeCoord)
    ensures
        (a + b).contains(d) <==> (a.contains(d) || b.contains(d)),
{
    if a.contains(d) {
        let k = choose|k: int| 0 <= k < a.len() && a[k] == d;
        assert((a + b)[k] == d);
    }
    if b.contains(d) {
        let k = choose|k: int| 0 <= k < b.len() && b[k] == d;
        assert((a + b)[a.len() + k] == d);
    }
    if (a + b).contains(d) {
        let k = choose|k: int| 0 <= k < (a + b).len() && (a + b)[k] == d;
        if k < a.len() {
            assert(a[k] == d);
        } else {
            assert(b[k - a.len()] == d);
        }
    }
}

/// For a point of the box, the cells that share a row, a column or a box with it on a
/// face holding both are exactly the other cells of the rows, columns and boxes through
/// its face-local positions (what `Face::row`, `Face::col` and `Face::box_at` list).
pub proof fn lemma_related_units(c: CubeCoord, d: CubeCoord)
    requires
        c.in_box(),
    ensures
        related_spec(c, d) <==> (d != c && in_units_of(c, d)),
{
    lemma_face_coords_sound(c);
    lemma_face_coords_complete(c);
    if related_spec(c, d) {
        let f = if unit_on_face(Face::Right, c, d) {
            Face::Right
        } else if unit_on_face(Face::Left, c, d) {
            Face::Left
        } else if unit_on_face(Face::Top, c, d) {
            Face::Top
        } else if unit_on_face(Face::Bottom, c, d) {
            Face::Bottom
        } else if unit_on_face(Face::Front, c, d) {
            Face::Front
        } else {
            Face::Back
        };
        assert(unit_on_face(f, c, d));
        assert(face_coords_of(c).contains(f.local(c)));
        let i = choose|i: int| 0 <= i < face_coords_of(c).len() && face_coords_of(c)[i] == f.local(c);
        lemma_units_on_face(f, c, d);
        assert(units_through(face_coords_of(c)[i]).contains(d));
    }
    if d != c && in_units_of(c, d) {
        let i = choose|i: int|
            0 <= i < face_coords_of(c).len() && #[trigger] units_through(face_coords_of(c)[i]).contains(d);
        let f = face_coords_of(c)[i].face;
        lemma_units_on_face(f, c, d);
        assert(unit_on_face(f, c, d));
        match f {
            Face::Right => assert(constrained(c, d)),
            Face::Left => assert(constrained(c, d)),
            Face::Top => assert(constrained(c, d)),
            Face::Bottom => assert(constrained(c, d)),
            Face::Front => assert(constrained(c, d)),
            Face::Back => assert(constrained(c, d)),
        }
    }
}

/// Relatedness goes both ways: `b` is among the cells related to `a` exactly when `a` is
/// among those related to `b`.
pub proof fn lemma_related_symmetric(a: CubeCoord, b: CubeCoord)
    requires
        a.in_box(),
        b.in_box(),
    ensures
        related_spec(a, b) <==> related_spec(b, a),
        (b != a && in_units_of(a, b)) <==> (a != b && in_units_of(b, a)),
{
    lemma_related_units(a, b);
    lemma_related_units(b, a);
}

/// On a face holding a point of the box, the row, the column and the box through the
/// point hold exactly the points of the box that share a unit of that face with it.
proof fn lemma_units_on_face(f: Face, c: CubeCoord, d: CubeCoord)
    requires
        c.in_box(),
        f.holds(c),
    ensures
        units_through(f.local(c)).contains(d) <==> (d.in_box() && unit_on_face(f, c, d)),
{
    let u = f.local_u(c);
    let v = f.local_v(c);
    let row = row_cells(f, v);
    let col = col_cells(f, u);
    let bx = box_cells(f, u, v);
    assert(units_through(f.local(c)) == row + col + bx);
    lemma_concat_contains(row, col, d);
    lemma_concat_contains(row + col, bx, d);
    if row.contains(d) {
        let k = choose|k: int| 0 <= k < row.len() && row[k] == d;
        lemma_cube_at_local(f, k as u8, v);
    }
    if col.contains(d) {
        let k = choose|k: int| 0 <= k < col.len() && col[k] == d;
        lemma_cube_at_local(f, u, k as u8);
    }
    if bx.contains(d) {
        let k = choose|k: int| 0 <= k < bx.len() && bx[k] == d;
        let bu: int = (u / 3) * 3 + k % 3;
        let bv: int = (v / 3) * 3 + k / 3;
        assert(0 <= bu < 9 && 0 <= bv < 9 && bu / 3 == u / 3 && bv / 3 == v / 3) by (nonlinear_arith)
            requires
                bu == (u / 3) * 3 + k % 3,
                bv == (v / 3) * 3 + k / 3,
                0 <= k < 9,
                u < 9,
                v < 9,
        ;
        lemma_cube_at_local(f, bu as u8, bv as u8);
    }
    if d.in_box() && unit_on_face(f, c, d) {
        lemma_local_cube_at(f, d);
        let du = f.local_u(d);
        let dv = f.local_v(d);
        if dv == v {
            assert(row[du as int] == d);
        } else if du == u {
            assert(col[dv as int] == d);
        } else {
            let k: int = (dv % 3) * 3 + du % 3;
            assert(0 <= k < 9 && k % 3 == du % 3 && k / 3 == dv % 3 && (u / 3) * 3 + du % 3 == du
                && (v / 3) * 3 + dv % 3 == dv) by (nonlinear_arith)
                requires
                    k == (dv % 3) * 3 + du % 3,
                    du / 3 == u / 3,
                    dv / 3 == v / 3,
                    du < 9,
                    dv < 9,
            ;
            assert(bx[k] == d);
        }
    }
}

/// How two adjacent faces share an edge.
#[derive(Debug, Clone, Copy, PartialEq, Eq, Structural)]
pub struct SharedEdge {
    pub neighbor: Face,
    /// The fixed row or column index (`0..9`) on the neighbouring face.
    pub index: u8,
    /// When true the edge runs along `u` on the neighbour (its `v == index`);
    /// otherwise it runs along `v` (its `u == index`).
    pub along_u: bool,
}

impl SharedEdge {
    fn new(neighbor: Face, index: u8, along_u: bool) -> (r: Self)
        ensures
            r == (SharedEdge { neighbor, index, along_u }),
    {
        Self { neighbor, index, along_u }
    }
}

/// Shorthand for a shared-edge value.
pub open spec fn edge(neighbor: Face, index: u8, along_u: bool) -> SharedEdge {
    SharedEdge { neighbor, index, along_u }
}

/// Cell `t` of border `k` of face `f`: the min-v, max-v, min-u and max-u borders in turn.
pub open spec fn border_cell(f: Face, k: int, t: u8) -> CubeCoord {
    if k == 0 {
        f.cube_at(t, 0)
    } else if k == 1 {
        f.cube_at(t, 8)
    } else if k == 2 {
        f.cube_at(0, t)
    } else {
        f.cube_at(8, t)
    }
}

/// Cell `t` of the line that `e` names on its neighbouring face.
pub open spec fn line_cell(e: SharedEdge, t: u8) -> CubeCoord {
    if e.along_u {
        e.neighbor.cube_at(t, e.index)
    } else {
        e.neighbor.cube_at(e.index, t)
    }
}

/// The four edges of a face shared with neighbouring faces, in the order min-v, max-v,
/// min-u, max-u: for each, the face across the edge and the row or column of that face
/// which is the same line of cells.
pub open spec fn shared_edges_of(f: Face) -> Seq<SharedEdge> {
    match f {
        Face::Right => seq![
            edge(Face::Back, 8, true),
            edge(Face::Front, 8, false),
            edge(Face::Bottom, 8, true),
            edge(Face::Top, 8, false),
        ],
        Face::Left => seq![
            edge(Face::Bottom, 0, true),
            edge(Face::Top, 0, false),
            edge(Face::Back, 0, true),
            edge(Face::Front, 0, false),
        ],
        Face::Top => seq![
            edge(Face::Back, 8, false),
            edge(Face::Front, 8, true),
            edge(Face::Left, 8, true),
            edge(Face::Right, 8, false),
        ],
        Face::Bottom => seq![
            edge(Face::Left, 0, true),
            edge(Face::Right, 0, false),
            edge(Face::Back, 0, false),
            edge(Face::Front, 0, true),
        ],
        Face::Front => seq![
            edge(Face::Bottom, 8, false),
            edge(Face::Top, 8, true),
            edge(Face::Left, 8, false),
            edge(Face::Right, 8, true),
        ],
        Face::Back => seq![
            edge(Face::Left, 0, false),
            edge(Face::Right, 0, true),
            edge(Face::Bottom, 0, false),
            edge(Face::Top, 0, true),
        ],
    }
}

/// The one-letter code of a face: F, B, L, R, T, U (bottom).
pub open spec fn face_code(f: Face) -> Seq<char> {
    match f {
        Face::Front => "F"@,
        Face::Back => "B"@,
        Face::Left => "L"@,
        Face::Right => "R"@,
        Face::Top => "T"@,
        Face::Bottom => "U"@,
    }
}

impl Face {
    /// The four edges this face shares with its neighbours (min-v, max-v, min-u, max-u).
    pub fn shared_edges(&self) -> (r: [SharedEdge; 4])
        ensures
            r@ == shared_edges_of(*self),
            forall|k: int, t: u8|
                0 <= k < 4 && t < 9 ==> {
                    &&& r@[k].neighbor != *self
                    &&& r@[k].index < 9
                    &&& r@[k].neighbor.holds(#[trigger] border_cell(*self, k, t))
                    &&& border_cell(*self, k, t) == line_cell(r@[k], t)
                },
    {
        let r = match self {
            Face::Right => [
                SharedEdge::new(Face::Back, 8, true),
                SharedEdge::new(Face::Front, 8, false),
                SharedEdge::new(Face::Bottom, 8, true),
                SharedEdge::new(Face::Top, 8, false),
            ],
            Face::Left => [
                SharedEdge::new(Face::Bottom, 0, true),
                SharedEdge::new(Face::Top, 0, false),
                SharedEdge::new(Face::Back, 0, true),
                SharedEdge::new(Face::Front, 0, false),
            ],
            Face::Top => [
                SharedEdge::new(Face::Back, 8, false),
                SharedEdge::new(Face::Front, 8, true),
                SharedEdge::new(Face::Left, 8, true),
                SharedEdge::new(Face::Right, 8, false),
            ],
            Face::Bottom => [
                SharedEdge::new(Face::Left, 0, true),
                SharedEdge::new(Face::Right, 0, false),
                SharedEdge::new(Face::Back, 0, false),
                SharedEdge::new(Face::Front, 0, true),
            ],
            Face::Front => [
                SharedEdge::new(Face::Bottom, 8, false),
                SharedEdge::new(Face::Top, 8, true),
                SharedEdge::new(Face::Left, 8, false),
                SharedEdge::new(Face::Right, 8, true),
            ],
            Face::Back => [
                SharedEdge::new(Face::Left, 0, false),
                SharedEdge::new(Face::Right, 0, true),
                SharedEdge::new(Face::Bottom, 0, false),
                SharedEdge::new(Face::Top, 0, true),
            ],
        };
        assert(r@ =~= shared_edges_of(*self));
        r
    }
}

/// Edge `k` (min-v, max-v, min-u, max-u) of face `f` passes through `c`.
pub open spec fn edge_active(f: Face, c: CubeCoord, k: int) -> bool {
    if k == 0 {
        f.local_v(c) == 0
    } else if k == 1 {
        f.local_v(c) == 8
    } else if k == 2 {
        f.local_u(c) == 0
    } else {
        f.local_u(c) == 8
    }
}

/// `d` lies on the line of the neighbouring face that the shared edge `e` names.
pub open spec fn on_edge_line(e: SharedEdge, d: CubeCoord) -> bool {
    &&& d.in_box()
    &&& e.neighbor.holds(d)
    &&& if e.along_u {
        e.neighbor.local_v(d) == e.index
    } else {
        e.neighbor.local_u(d) == e.index
    }
}

/// Through face `f`, `c` lies on a shared edge whose neighbouring line holds `d`.
pub open spec fn edge_link_on_face(f: Face, c: CubeCoord, d: CubeCoord) -> bool {
    &&& f.holds(c)
    &&& {
        ||| edge_active(f, c, 0) && on_edge_line(shared_edges_of(f)[0], d)
        ||| edge_active(f, c, 1) && on_edge_line(shared_edges_of(f)[1], d)
        ||| edge_active(f, c, 2) && on_edge_line(shared_edges_of(f)[2], d)
        ||| edge_active(f, c, 3) && on_edge_line(shared_edges_of(f)[3], d)
    }
}

/// `d` (other than `c`) lies on a row or column of a neighbouring face that continues an
/// edge passing through `c`.
pub open spec fn extended_spec(c: CubeCoord, d: CubeCoord) -> bool {
    &&& d != c
    &&& {
        ||| edge_link_on_face(Face::Right, c, d)
        ||| edge_link_on_face(Face::Left, c, d)
        ||| edge_link_on_face(Face::Top, c, d)
        ||| edge_link_on_face(Face::Bottom, c, d)
        ||| edge_link_on_face(Face::Front, c, d)
        ||| edge_link_on_face(Face::Back, c, d)
    }
}

fn on_edge_line_exec(e: SharedEdge, d: CubeCoord) -> (r: bool)
    requires
        d.in_box(),
    ensures
        r == on_edge_line(e, d),
{
    if !e.neighbor.contains_coord(d) {
        return false;
    }
    let (u, v) = e.neighbor.local_of(d);
    if e.along_u {
        v == e.index
    } else {
        u == e.index
    }
}

fn edge_link_on_face_exec(f: Face, c: CubeCoord, d: CubeCoord) -> (r: bool)
    requires
        d.in_box(),
    ensures
        r == edge_link_on_face(f, c, d),
{
    if !f.contains_coord(c) {
        return false;
    }
    let edges = f.shared_edges();
    let (u, v) = f.local_of(c);
    (v == 0 && on_edge_line_exec(edges[0], d)) || (v == 8 && on_edge_line_exec(edges[1], d)) || (
    u == 0 && on_edge_line_exec(edges[2], d)) || (u == 8 && on_edge_line_exec(edges[3], d))
}

impl CubeCoord {
    /// The coordinates that share an edge of the cube with this one: for each face border
    /// through it, the line of the neighbouring face that the border continues into (the
    /// same cells), without repetition and without the coordinate itself.
    pub fn extended_related(&self) -> (r: Vec<CubeCoord>)
        ensures
            r@.no_duplicates(),
            slots_increasing(r@),
            forall|d: CubeCoord| r@.contains(d) <==> extended_spec(*self, d),
    {
        let c = *self;
        let pred = |d: CubeCoord| -> (b: bool)
            requires
                d.in_box(),
            ensures
                b == extended_spec(c, d),
            {
                let keep = d != c && (edge_link_on_face_exec(Face::Right, c, d)
                    || edge_link_on_face_exec(Face::Left, c, d) || edge_link_on_face_exec(
                    Face::Top,
                    c,
                    d,
                ) || edge_link_on_face_exec(Face::Bottom, c, d) || edge_link_on_face_exec(
                    Face::Front,
                    c,
                    d,
                ) || edge_link_on_face_exec(Face::Back, c, d));
                keep
            };
        filter_box(pred, Ghost(|d: CubeCoord| extended_spec(c, d)))
    }
}

/// Counting surface points by `count_accepted` gives `surface_count`.
proof fn lemma_count_surface(n: int)
    ensures
        count_accepted(|d: CubeCoord| d.on_surface(), n) == surface_count(n),
    decreases n,
{
    if n > 0 {
        lemma_count_surface(n - 1);
    }
}

/// All surface coordinates (386 of them), in increasing `(x, y, z)` order.
pub fn iter_surface_coords() -> (r: Vec<CubeCoord>)
    ensures
        r@.no_duplicates(),
        slots_increasing(r@),
        forall|d: CubeCoord| r@.contains(d) <==> d.on_surface(),
        r@.len() == 386,
{
    let pred = |d: CubeCoord| -> (b: bool)
        ensures
            b == d.on_surface(),
        {
            let keep = d.is_surface();
            keep
        };
    let r = filter_box(pred, Ghost(|d: CubeCoord| d.on_surface()));
    proof {
        lemma_count_surface(729);
        lemma_surface_count();
    }
    r
}

/// Puzzle difficulty.
#[derive(Debug, Clone, Copy, PartialEq, Eq, Hash, Structural)]
pub enum Difficulty {
    Easy,
    Medium,
    Hard,
}

impl Difficulty {
    /// Number of cells to hide for this difficulty (out of 386).
    pub open spec fn spec_hidden_count(self) -> usize {
        match self {
            Difficulty::Easy => 100,
            Difficulty::Medium => 160,
            Difficulty::Hard => 280,
        }
    }

    /// Number of cells to hide for this difficulty (out of 386).
    pub fn hidden_count(&self) -> (r: usize)
        ensures
            r == self.spec_hidden_count(),
    {
        match self {
            Difficulty::Easy => 100,
            Difficulty::Medium => 160,
            Difficulty::Hard => 280,
        }
    }

    /// The stored name of the difficulty.
    pub fn as_str(&self) -> (r: &'static str)
        ensures
            r@ == (match *self {
                Difficulty::Easy => "简单"@,
                Difficulty::Medium => "中等"@,
                Difficulty::Hard => "困难"@,
            }),
    {
        match self {
            Difficulty::Easy => "简单",
            Difficulty::Medium => "中等",
            Difficulty::Hard => "困难",
        }
    }
}


/// The number of surface points among the first `n` slots.
pub open spec fn surface_count(n: int) -> nat
    decreases n,
{
    if n <= 0 {
        0
    } else {
        surface_count(n - 1) + (if coord_at_slot(n - 1).on_surface() {
            1nat
        } else {
            0nat
        })
    }
}

/// Slot `81 * x + k` of layer `x` holds the point `(x, k / 9, k % 9)`.
proof fn lemma_layer_slot(x: int, k: int)
    requires
        0 <= x < 9,
        0 <= k < 81,
    ensures
        coord_at_slot(81 * x + k) == (CubeCoord { x: x as u8, y: (k / 9) as u8, z: (k % 9) as u8 }),
{
    assert((81 * x + k) / 81 == x && (81 * x + k) % 81 == k && (81 * x + k) % 9 == k % 9) by (nonlinear_arith)
        requires
            0 <= x < 9,
            0 <= k < 81,
    ;
}

/// A boundary layer (`x` is 0 or 8) lies wholly on the surface.
#[verifier::rlimit(60)]
#[verifier::spinoff_prover]
proof fn lemma_outer_layer(x: int)
    requires
        x == 0 || x == 8,
    ensures
        surface_count(81 * x + 81) == surface_count(81 * x) + 81,
{
    lemma_layer_slot(x, 0);
    assert(surface_count(81 * x + 1) == surface_count(81 * x) + 1);
    lemma_layer_slot(x, 1);
    assert(surface_count(81 * x + 2) == surface_count(81 * x) + 2);
    lemma_layer_slot(x, 2);
    assert(surface_count(81 * x + 3) == surface_count(81 * x) + 3);
    lemma_layer_slot(x, 3);
    assert(surface_count(81 * x + 4) == surface_count(81 * x) + 4);
    lemma_layer_slot(x, 4);
    assert(surface_count(81 * x + 5) == surface_count(81 * x) + 5);
    lemma_layer_slot(x, 5);
    assert(surface_count(81 * x + 6) == surface_count(81 * x) + 6);
    lemma_layer_slot(x, 6);
    assert(surface_count(81 * x + 7) == surface_count(81 * x) + 7);
    lemma_layer_slot(x, 7);
    assert(surface_count(81 * x + 8) == surface_count(81 * x) + 8);
    lemma_layer_slot(x, 8);
    assert(surface_count(81 * x + 9) == surface_count(81 * x) + 9);
    lemma_layer_slot(x, 9);
    assert(surface_count(81 * x + 10) == surface_count(81 * x) + 10);
    lemma_layer_slot(x, 10);
    assert(surface_count(81 * x + 11) == surface_count(81 * x) + 11);
    lemma_layer_slot(x, 11);
    assert(surface_count(81 * x + 12) == surface_count(81 * x) + 12);
    lemma_layer_slot(x, 12);
    assert(surface_count(81 * x + 13) == surface_count(81 * x) + 13);
    lemma_layer_slot(x, 13);
    assert(surface_count(81 * x + 14) == surface_count(81 * x) + 14);
    lemma_layer_slot(x, 14);
    assert(surface_count(81 * x + 15) == surface_count(81 * x) + 15);
    lemma_layer_slot(x, 15);
    assert(surface_count(81 * x + 16) == surface_count(81 * x) + 16);
    lemma_layer_slot(x, 16);
    assert(surface_count(81 * x + 17) == surface_count(81 * x) + 17);
    lemma_layer_slot(x, 17);
    assert(surface_count(81 * x + 18) == surface_count(81 * x) + 18);
    lemma_layer_slot(x, 18);
    assert(surface_count(81 * x + 19) == surface_count(81 * x) + 19);
    lemma_layer_slot(x, 19);
    assert(surface_count(81 * x + 20) == surface_count(81 * x) + 20);
    lemma_layer_slot(x, 20);
    assert(surface_count(81 * x + 21) == surface_count(81 * x) + 21);
    lemma_layer_slot(x, 21);
    assert(surface_count(81 * x + 22) == surface_count(81 * x) + 22);
    lemma_layer_slot(x, 22);
    assert(surface_count(81 * x + 23) == surface_count(81 * x) + 23);
    lemma_layer_slot(x, 23);
    assert(surface_count(81 * x + 24) == surface_count(81 * x) + 24);
    lemma_layer_slot(x, 24);
    assert(surface_count(81 * x + 25) == surface_count(81 * x) + 25);
    lemma_layer_slot(x, 25);
    assert(surface_count(81 * x + 26) == surface_count(81 * x) + 26);
    lemma_layer_slot(x, 26);
    assert(surface_count(81 * x + 27) == surface_count(81 * x) + 27);
    lemma_layer_slot(x, 27);
    assert(surface_count(81 * x + 28) == surface_count(81 * x) + 28);
    lemma_layer_slot(x, 28);
    assert(surface_count(81 * x + 29) == surface_count(81 * x) + 29);
    lemma_layer_slot(x, 29);
    assert(surface_count(81 * x + 30) == surface_count(81 * x) + 30);
    lemma_layer_slot(x, 30);
    assert(surface_count(81 * x + 31) == surface_count(81 * x) + 31);
    lemma_layer_slot(x, 31);
    assert(surface_count(81 * x + 32) == surface_count(81 * x) + 32);
    lemma_layer_slot(x, 32);
    assert(surface_count(81 * x + 33) == surface_count(81 * x) + 33);
    lemma_layer_slot(x, 33);
    assert(surface_count(81 * x + 34) == surface_count(81 * x) + 34);
    lemma_layer_slot(x, 34);
    assert(surface_count(81 * x + 35) == surface_count(81 * x) + 35);
    lemma_layer_slot(x, 35);
    assert(surface_count(81 * x + 36) == surface_count(81 * x) + 36);
    lemma_layer_slot(x, 36);
    assert(surface_count(81 * x + 37) == surface_count(81 * x) + 37);
    lemma_layer_slot(x, 37);
    assert(surface_count(81 * x + 38) == surface_count(81 * x) + 38);
    lemma_layer_slot(x, 38);
    assert(surface_count(81 * x + 39) == surface_count(81 * x) + 39);
    lemma_layer_slot(x, 39);
    assert(surface_count(81 * x + 40) == surface_count(81 * x) + 40);
    lemma_layer_slot(x, 40);
    assert(surface_count(81 * x + 41) == surface_count(81 * x) + 41);
    lemma_layer_slot(x, 41);
    assert(surface_count(81 * x + 42) == surface_count(81 * x) + 42);
    lemma_layer_slot(x, 42);
    assert(surface_count(81 * x + 43) == surface_count(81 * x) + 43);
    lemma_layer_slot(x, 43);
    assert(surface_count(81 * x + 44) == surface_count(81 * x) + 44);
    lemma_layer_slot(x, 44);
    assert(surface_count(81 * x + 45) == surface_count(81 * x) + 45);
    lemma_layer_slot(x, 45);
    assert(surface_count(81 * x + 46) == surface_count(81 * x) + 46);
    lemma_layer_slot(x, 46);
    assert(surface_count(81 * x + 47) == surface_count(81 * x) + 47);
    lemma_layer_slot(x, 47);
    assert(surface_count(81 * x + 48) == surface_count(81 * x) + 48);
    lemma_layer_slot(x, 48);
    assert(surface_count(81 * x + 49) == surface_count(81 * x) + 49);
    lemma_layer_slot(x, 49);
    assert(surface_count(81 * x + 50) == surface_count(81 * x) + 50);
    lemma_layer_slot(x, 50);
    assert(surface_count(81 * x + 51) == surface_count(81 * x) + 51);
    lemma_layer_slot(x, 51);
    assert(surface_count(81 * x + 52) == surface_count(81 * x) + 52);
    lemma_layer_slot(x, 52);
    assert(surface_count(81 * x + 53) == surface_count(81 * x) + 53);
    lemma_layer_slot(x, 53);
    assert(surface_count(81 * x + 54) == surface_count(81 * x) + 54);
    lemma_layer_slot(x, 54);
    assert(surface_count(81 * x + 55) == surface_count(81 * x) + 55);
    lemma_layer_slot(x, 55);
    assert(surface_count(81 * x + 56) == surface_count(81 * x) + 56);
    lemma_layer_slot(x, 56);
    assert(surface_count(81 * x + 57) == surface_count(81 * x) + 57);
    lemma_layer_slot(x, 57);
    assert(surface_count(81 * x + 58) == surface_count(81 * x) + 58);
    lemma_layer_slot(x, 58);
    assert(surface_count(81 * x + 59) == surface_count(81 * x) + 59);
    lemma_layer_slot(x, 59);
    assert(surface_count(81 * x + 60) == surface_count(81 * x) + 60);
    lemma_layer_slot(x, 60);
    assert(surface_count(81 * x + 61) == surface_count(81 * x) + 61);
    lemma_layer_slot(x, 61);
    assert(surface_count(81 * x + 62) == surface_count(81 * x) + 62);
    lemma_layer_slot(x, 62);
    assert(surface_count(81 * x + 63) == surface_count(81 * x) + 63);
    lemma_layer_slot(x, 63);
    assert(surface_count(81 * x + 64) == surface_count(81 * x) + 64);
    lemma_layer_slot(x, 64);
    assert(surface_count(81 * x + 65) == surface_count(81 * x) + 65);
    lemma_layer_slot(x, 65);
    assert(surface_count(81 * x + 66) == surface_count(81 * x) + 66);
    lemma_layer_slot(x, 66);
    assert(surface_count(81 * x + 67) == surface_count(81 * x) + 67);
    lemma_layer_slot(x, 67);
    assert(surface_count(81 * x + 68) == surface_count(81 * x) + 68);
    lemma_layer_slot(x, 68);
    assert(surface_count(81 * x + 69) == surface_count(81 * x) + 69);
    lemma_layer_slot(x, 69);
    assert(surface_count(81 * x + 70) == surface_count(81 * x) + 70);
    lemma_layer_slot(x, 70);
    assert(surface_count(81 * x + 71) == surface_count(81 * x) + 71);
    lemma_layer_slot(x, 71);
    assert(surface_count(81 * x + 72) == surface_count(81 * x) + 72);
    lemma_layer_slot(x, 72);
    assert(surface_count(81 * x + 73) == surface_count(81 * x) + 73);
    lemma_layer_slot(x, 73);
    assert(surface_count(81 * x + 74) == surface_count(81 * x) + 74);
    lemma_layer_slot(x, 74);
    assert(surface_count(81 * x + 75) == surface_count(81 * x) + 75);
    lemma_layer_slot(x, 75);
    assert(surface_count(81 * x + 76) == surface_count(81 * x) + 76);
    lemma_layer_slot(x, 76);
    assert(surface_count(81 * x + 77) == surface_count(81 * x) + 77);
    lemma_layer_slot(x, 77);
    assert(surface_count(81 * x + 78) == surface_count(81 * x) + 78);
    lemma_layer_slot(x, 78);
    assert(surface_count(81 * x + 79) == surface_count(81 * x) + 79);
    lemma_layer_slot(x, 79);
    assert(surface_count(81 * x + 80) == surface_count(81 * x) + 80);
    lemma_layer_slot(x, 80);
    assert(surface_count(81 * x + 81) == surface_count(81 * x) + 81);
}

/// An inner layer has 32 surface points, those with `y` or `z` on the boundary.
#[verifier::rlimit(60)]
#[verifier::spinoff_prover]
proof fn lemma_inner_layer(x: int)
    requires
        1 <= x <= 7,
    ensures
        surface_count(81 * x + 81) == surface_count(81 * x) + 32,
{
    lemma_layer_slot(x, 0);
    assert(surface_count(81 * x + 1) == surface_count(81 * x) + 1);
    lemma_layer_slot(x, 1);
    assert(surface_count(81 * x + 2) == surface_count(81 * x) + 2);
    lemma_layer_slot(x, 2);
    assert(surface_count(81 * x + 3) == surface_count(81 * x) + 3);
    lemma_layer_slot(x, 3);
    assert(surface_count(81 * x + 4) == surface_count(81 * x) + 4);
    lemma_layer_slot(x, 4);
    assert(surface_count(81 * x + 5) == surface_count(81 * x) + 5);
    lemma_layer_slot(x, 5);
    assert(surface_count(81 * x + 6) == surface_count(81 * x) + 6);
    lemma_layer_slot(x, 6);
    assert(surface_count(81 * x + 7) == surface_count(81 * x) + 7);
    lemma_layer_slot(x, 7);
    assert(surface_count(81 * x + 8) == surface_count(81 * x) + 8);
    lemma_layer_slot(x, 8);
    assert(surface_count(81 * x + 9) == surface_count(81 * x) + 9);
    lemma_layer_slot(x, 9);
    assert(surface_count(81 * x + 10) == surface_count(81 * x) + 10);
    lemma_layer_slot(x, 10);
    assert(surface_count(81 * x + 11) == surface_count(81 * x) + 10);
    lemma_layer_slot(x, 11);
    assert(surface_count(81 * x + 12) == surface_count(81 * x) + 10);
    lemma_layer_slot(x, 12);
    assert(surface_count(81 * x + 13) == surface_count(81 * x) + 10);
    lemma_layer_slot(x, 13);
    assert(surface_count(81 * x + 14) == surface_count(81 * x) + 10);
    lemma_layer_slot(x, 14);
    assert(surface_count(81 * x + 15) == surface_count(81 * x) + 10);
    lemma_layer_slot(x, 15);
    assert(surface_count(81 * x + 16) == surface_count(81 * x) + 10);
    lemma_layer_slot(x, 16);
    assert(surface_count(81 * x + 17) == surface_count(81 * x) + 10);
    lemma_layer_slot(x, 17);
    assert(surface_count(81 * x + 18) == surface_count(81 * x) + 11);
    lemma_layer_slot(x, 18);
    assert(surface_count(81 * x + 19) == surface_count(81 * x) + 12);
    lemma_layer_slot(x, 19);
    assert(surface_count(81 * x + 20) == surface_count(81 * x) + 12);
    lemma_layer_slot(x, 20);
    assert(surface_count(81 * x + 21) == surface_count(81 * x) + 12);
    lemma_layer_slot(x, 21);
    assert(surface_count(81 * x + 22) == surface_count(81 * x) + 12);
    lemma_layer_slot(x, 22);
    assert(surface_count(81 * x + 23) == surface_count(81 * x) + 12);
    lemma_layer_slot(x, 23);
    assert(surface_count(81 * x + 24) == surface_count(81 * x) + 12);
    lemma_layer_slot(x, 24);
    assert(surface_count(81 * x + 25) == surface_count(81 * x) + 12);
    lemma_layer_slot(x, 25);
    assert(surface_count(81 * x + 26) == surface_count(81 * x) + 12);
    lemma_layer_slot(x, 26);
    assert(surface_count(81 * x + 27) == surface_count(81 * x) + 13);
    lemma_layer_slot(x, 27);
    assert(surface_count(81 * x + 28) == surface_count(81 * x) + 14);
    lemma_layer_slot(x, 28);
    assert(surface_count(81 * x + 29) == surface_count(81 * x) + 14);
    lemma_layer_slot(x, 29);
    assert(surface_count(81 * x + 30) == surface_count(81 * x) + 14);
    lemma_layer_slot(x, 30);
    assert(surface_count(81 * x + 31) == surface_count(81 * x) + 14);
    lemma_layer_slot(x, 31);
    assert(surface_count(81 * x + 32) == surface_count(81 * x) + 14);
    lemma_layer_slot(x, 32);
    assert(surface_count(81 * x + 33) == surface_count(81 * x) + 14);
    lemma_layer_slot(x, 33);
    assert(surface_count(81 * x + 34) == surface_count(81 * x) + 14);
    lemma_layer_slot(x, 34);
    assert(surface_count(81 * x + 35) == surface_count(81 * x) + 14);
    lemma_layer_slot(x, 35);
    assert(surface_count(81 * x + 36) == surface_count(81 * x) + 15);
    lemma_layer_slot(x, 36);
    assert(surface_count(81 * x + 37) == surface_count(81 * x) + 16);
    lemma_layer_slot(x, 37);
    assert(surface_count(81 * x + 38) == surface_count(81 * x) + 16);
    lemma_layer_slot(x, 38);
    assert(surface_count(81 * x + 39) == surface_count(81 * x) + 16);
    lemma_layer_slot(x, 39);
    assert(surface_count(81 * x + 40) == surface_count(81 * x) + 16);
    lemma_layer_slot(x, 40);
    assert(surface_count(81 * x + 41) == surface_count(81 * x) + 16);
    lemma_layer_slot(x, 41);
    assert(surface_count(81 * x + 42) == surface_count(81 * x) + 16);
    lemma_layer_slot(x, 42);
    assert(surface_count(81 * x + 43) == surface_count(81 * x) + 16);
    lemma_layer_slot(x, 43);
    assert(surface_count(81 * x + 44) == surface_count(81 * x) + 16);
    lemma_layer_slot(x, 44);
    assert(surface_count(81 * x + 45) == surface_count(81 * x) + 17);
    lemma_layer_slot(x, 45);
    assert(surface_count(81 * x + 46) == surface_count(81 * x) + 18);
    lemma_layer_slot(x, 46);
    assert(surface_count(81 * x + 47) == surface_count(81 * x) + 18);
    lemma_layer_slot(x, 47);
    assert(surface_count(81 * x + 48) == surface_count(81 * x) + 18);
    lemma_layer_slot(x, 48);
    assert(surface_count(81 * x + 49) == surface_count(81 * x) + 18);
    lemma_layer_slot(x, 49);
    assert(surface_count(81 * x + 50) == surface_count(81 * x) + 18);
    lemma_layer_slot(x, 50);
    assert(surface_count(81 * x + 51) == surface_count(81 * x) + 18);
    lemma_layer_slot(x, 51);
    assert(surface_count(81 * x + 52) == surface_count(81 * x) + 18);
    lemma_layer_slot(x, 52);
    assert(surface_count(81 * x + 53) == surface_count(81 * x) + 18);
    lemma_layer_slot(x, 53);
    assert(surface_count(81 * x + 54) == surface_count(81 * x) + 19);
    lemma_layer_slot(x, 54);
    assert(surface_count(81 * x + 55) == surface_count(81 * x) + 20);
    lemma_layer_slot(x, 55);
    assert(surface_count(81 * x + 56) == surface_count(81 * x) + 20);
    lemma_layer_slot(x, 56);
    assert(surface_count(81 * x + 57) == surface_count(81 * x) + 20);
    lemma_layer_slot(x, 57);
    assert(surface_count(81 * x + 58) == surface_count(81 * x) + 20);
    lemma_layer_slot(x, 58);
    assert(surface_count(81 * x + 59) == surface_count(81 * x) + 20);
    lemma_layer_slot(x, 59);
    assert(surface_count(81 * x + 60) == surface_count(81 * x) + 20);
    lemma_layer_slot(x, 60);
    assert(surface_count(81 * x + 61) == surface_count(81 * x) + 20);
    lemma_layer_slot(x, 61);
    assert(surface_count(81 * x + 62) == surface_count(81 * x) + 20);
    lemma_layer_slot(x, 62);
    assert(surface_count(81 * x + 63) == surface_count(81 * x) + 21);
    lemma_layer_slot(x, 63);
    assert(surface_count(81 * x + 64) == surface_count(81 * x) + 22);
    lemma_layer_slot(x, 64);
    assert(surface_count(81 * x + 65) == surface_count(81 * x) + 22);
    lemma_layer_slot(x, 65);
    assert(surface_count(81 * x + 66) == surface_count(81 * x) + 22);
    lemma_layer_slot(x, 66);
    assert(surface_count(81 * x + 67) == surface_count(81 * x) + 22);
    lemma_layer_slot(x, 67);
    assert(surface_count(81 * x + 68) == surface_count(81 * x) + 22);
    lemma_layer_slot(x, 68);
    assert(surface_count(81 * x + 69) == surface_count(81 * x) + 22);
    lemma_layer_slot(x, 69);
    assert(surface_count(81 * x + 70) == surface_count(81 * x) + 22);
    lemma_layer_slot(x, 70);
    assert(surface_count(81 * x + 71) == surface_count(81 * x) + 22);
    lemma_layer_slot(x, 71);
    assert(surface_count(81 * x + 72) == surface_count(81 * x) + 23);
    lemma_layer_slot(x, 72);
    assert(surface_count(81 * x + 73) == surface_count(81 * x) + 24);
    lemma_layer_slot(x, 73);
    assert(surface_count(81 * x + 74) == surface_count(81 * x) + 25);
    lemma_layer_slot(x, 74);
    assert(surface_count(81 * x + 75) == surface_count(81 * x) + 26);
    lemma_layer_slot(x, 75);
    assert(surface_count(81 * x + 76) == surface_count(81 * x) + 27);
    lemma_layer_slot(x, 76);
    assert(surface_count(81 * x + 77) == surface_count(81 * x) + 28);
    lemma_layer_slot(x, 77);
    assert(surface_count(81 * x + 78) == surface_count(81 * x) + 29);
    lemma_layer_slot(x, 78);
    assert(surface_count(81 * x + 79) == surface_count(81 * x) + 30);
    lemma_layer_slot(x, 79);
    assert(surface_count(81 * x + 80) == surface_count(81 * x) + 31);
    lemma_layer_slot(x, 80);
    assert(surface_count(81 * x + 81) == surface_count(81 * x) + 32);
}

/// The surface of the cube has 386 points.
pub proof fn lemma_surface_count()
    ensures
        surface_count(729) == 386,
{
    lemma_outer_layer(0);
    lemma_inner_layer(1);
    lemma_inner_layer(2);
    lemma_inner_layer(3);
    lemma_inner_layer(4);
    lemma_inner_layer(5);
    lemma_inner_layer(6);
    lemma_inner_layer(7);
    lemma_outer_layer(8);
}

} // verus!
