//! The save and exchange formats: boards as digit strings in surface order, the XOR and
//! base64 layers of encrypted exports, and reading exported games back.

use vstd::prelude::*;
use vstd::utf8::{decode_utf8, valid_utf8};

use crate::cube::{CubeCoord, Difficulty};
use crate::digits::{lookup, DigitMap};
use crate::grid::{Cell, CubeGrid};
use crate::text::{decimal, digit_char, digit_to_char, push_char, push_decimal};

verus! {

/// The save-format character of an optional digit: the digit, or `'0'` for none.
pub open spec fn value_char(v: Option<u8>) -> char {
    match v {
        Some(d) => digit_char(d),
        None => '0',
    }
}

/// Whether every value of `m` can be written as one character.
pub open spec fn writable(m: Map<CubeCoord, u8>) -> bool {
    forall|c: CubeCoord| #[trigger] m.dom().contains(c) ==> m[c] < 208
}

/// The values of `solution` at `coords`, in order, as digit characters (`'0'` for none).
pub fn serialize_solution(solution: &DigitMap, coords: &[CubeCoord]) -> (r: String)
    requires
        writable(solution@),
    ensures
        r@ == Seq::new(coords@.len(), |i: int| value_char(lookup(solution@, coords@[i]))),
{
    let mut r = String::new();
    for i in 0..coords.len()
        invariant
            writable(solution@),
            r@ == Seq::new(i as nat, |k: int| value_char(lookup(solution@, coords@[k]))),
    {
        let ch = match solution.get(&coords[i]) {
            Some(v) => digit_to_char(v),
            None => '0',
        };
        push_char(&mut r, ch);
        assert(r@ =~= Seq::new((i + 1) as nat, |k: int| value_char(lookup(solution@, coords@[k]))));
    }
    r
}

/// The save-format character of the given digit at `c`: its value for a given cell, `'0'`
/// for any other.
pub open spec fn given_char(grid: Map<CubeCoord, Cell>, c: CubeCoord) -> char {
    if grid.dom().contains(c) && grid[c].given {
        value_char(grid[c].user_value)
    } else {
        '0'
    }
}

/// Whether every value of `grid` can be written as one character.
pub open spec fn grid_writable(grid: Map<CubeCoord, Cell>) -> bool {
    forall|c: CubeCoord| #[trigger] grid.dom().contains(c) && grid[c].user_value is Some ==> grid[c].user_value->0 < 208
}

/// The given digits at `coords`, in order (`'0'` for cells that are not given).
pub fn serialize_given(grid: &CubeGrid, coords: &[CubeCoord]) -> (r: String)
    requires
        grid.wf(),
        grid_writable(grid@),
    ensures
        r@ == Seq::new(coords@.len(), |i: int| given_char(grid@, coords@[i])),
{
    let mut r = String::new();
    for i in 0..coords.len()
        invariant
            grid.wf(),
            grid_writable(grid@),
            r@ == Seq::new(i as nat, |k: int| given_char(grid@, coords@[k])),
    {
        let c = coords[i];
        let ch = match grid.get(&c) {
            Some(cell) => if cell.given {
                match cell.user_value {
                    Some(v) => digit_to_char(v),
                    None => '0',
                }
            } else {
                '0'
            },
            None => '0',
        };
        push_char(&mut r, ch);
        assert(r@ =~= Seq::new((i + 1) as nat, |k: int| given_char(grid@, coords@[k])));
    }
    r
}

/// The number a save-format character stands for: its low byte minus the code of `'0'`.
pub open spec fn char_digit(ch: char) -> int {
    (ch as u32) % 256 - 48
}

/// Whether every character of `s` up to `n` reads as a number (its low byte is at least
/// the code of `'0'`).
pub open spec fn readable(s: Seq<char>, n: int) -> bool {
    forall|i: int| 0 <= i < n && i < s.len() ==> char_digit(#[trigger] s[i]) >= 0
}

/// Whether `coords` are distinct cells of the box.
pub open spec fn distinct_cells(coords: Seq<CubeCoord>) -> bool {
    &&& coords.no_duplicates()
    &&& forall|i: int| 0 <= i < coords.len() ==> (#[trigger] coords[i]).in_box()
}

/// The digit read at position `i`.
fn read_digit(s: &str, i: usize) -> (r: u8)
    requires
        i < s@.len(),
        char_digit(s@[i as int]) >= 0,
    ensures
        r == char_digit(s@[i as int]),
{
    let code = s.get_char(i) as u32;
    let low: u8 = (code % 256) as u8;
    low - 48
}

/// The digits 1 to 9 that `data` holds at the positions of `coords`, read pairwise up to
/// the shorter of the two.
pub open spec fn read_digits(data: Seq<char>, coords: Seq<CubeCoord>) -> Map<CubeCoord, u8> {
    Map::new(
        |c: CubeCoord|
            exists|i: int|
                0 <= i < data.len() && 0 <= i < coords.len() && coords[i] == c && 1 <= #[trigger] char_digit(data[i])
                    <= 9,
        |c: CubeCoord| {
            let i = choose|i: int| 0 <= i < data.len() && 0 <= i < coords.len() && coords[i] == c;
            char_digit(data[i]) as u8
        },
    )
}

/// Reads back what `serialize_solution` wrote: the digits 1 to 9 of `data`, placed at
/// `coords` in order.
pub fn deserialize_solution_from(data: &str, coords: &[CubeCoord]) -> (r: DigitMap)
    requires
        distinct_cells(coords@),
        readable(data@, coords@.len() as int),
    ensures
        r@ == read_digits(data@, coords@),
{
    let n = data.unicode_len();
    let mut r = DigitMap::new();
    let mut i: usize = 0;
    while i < coords.len() && i < n
        invariant
            n == data@.len(),
            distinct_cells(coords@),
            readable(data@, coords@.len() as int),
            i <= coords@.len(),
            forall|c: CubeCoord|
                #[trigger] r@.dom().contains(c) <==> exists|k: int|
                    0 <= k < i && k < n && coords@[k] == c && 1 <= char_digit(data@[k]) <= 9,
            forall|k: int|
                0 <= k < i && k < n && 1 <= char_digit(data@[k]) <= 9 ==> r@[#[trigger] coords@[k]]
                    == char_digit(data@[k]),
        decreases coords@.len() - i,
    {
        let c = coords[i];
        let v = read_digit(data, i);
        if v >= 1 && v <= 9 {
            r.insert(c, v);
        }
        proof {
            assert forall|k: int|
                0 <= k < i + 1 && k < n && 1 <= char_digit(data@[k]) <= 9 implies r@[#[trigger] coords@[k]]
                == char_digit(data@[k]) by {
                if k < i {
                    assert(coords@[k] != coords@[i as int]);
                }
            }
        }
        i = i + 1;
    }
    proof {
        let m = read_digits(data@, coords@);
        assert forall|c: CubeCoord| #[trigger] r@.dom().contains(c) implies r@[c] == m[c] by {
            let k = choose|k: int| 0 <= k < i && k < n && coords@[k] == c && 1 <= char_digit(data@[k]) <= 9;
            let j = choose|j: int| 0 <= j < data@.len() && 0 <= j < coords@.len() && coords@[j] == c;
            assert(j == k);
        }
        assert(r@ =~= m);
    }
    r
}

/// The key of the XOR layer of encrypted exports.
pub open spec fn xor_key() -> Seq<u8> {
    seq![83u8, 117u8, 68u8, 111u8, 75u8, 117u8, 98u8, 101u8, 50u8, 48u8, 50u8, 52u8]
}

/// `data` with each byte XORed with the key byte of its position, the key repeating.
pub open spec fn xored(data: Seq<u8>) -> Seq<u8> {
    Seq::new(data.len(), |i: int| data[i] ^ xor_key()[i % 12])
}

/// XORs `data` with the repeating key "SuDoKube2024".
pub fn xor_crypt(data: &[u8]) -> (r: Vec<u8>)
    ensures
        r@ == xored(data@),
{
    let key: [u8; 12] = [83, 117, 68, 111, 75, 117, 98, 101, 50, 48, 50, 52];
    let mut r: Vec<u8> = Vec::new();
    let mut i: usize = 0;
    while i < data.len()
        invariant
            i <= data@.len(),
            key@ == xor_key(),
            r@ == Seq::new(i as nat, |k: int| data@[k] ^ xor_key()[k % 12]),
        decreases data@.len() - i,
    {
        r.push(data[i] ^ key[i % 12]);
        assert(r@ =~= Seq::new((i + 1) as nat, |k: int| data@[k] ^ xor_key()[k % 12]));
        i = i + 1;
    }
    r
}

/// Applying the XOR layer twice gives the data back.
pub proof fn lemma_xor_involutive(data: Seq<u8>)
    ensures
        xored(xored(data)) == data,
{
    assert forall|i: int| 0 <= i < data.len() implies #[trigger] xored(xored(data))[i] == data[i] by {
        let a = data[i];
        let k = xor_key()[i % 12];
        assert((a ^ k) ^ k == a) by (bit_vector);
    }
    assert(xored(xored(data)) =~= data);
}

/// The number of positions read from `data` against `coords`.
pub open spec fn read_len(data: Seq<char>, coords: Seq<CubeCoord>) -> int {
    if data.len() < coords.len() {
        data.len() as int
    } else {
        coords.len() as int
    }
}

/// The cell read at position `i`: a given cell (one the given string names) shows the
/// puzzle digit and has the given digit as answer; another cell shows the puzzle digit
/// when it is 1 to 9, and takes it (at least 1) as answer.
pub open spec fn cell_read(puzzle: Seq<char>, given: Map<CubeCoord, u8>, c: CubeCoord, i: int, cell: Cell) -> bool {
    let v = char_digit(puzzle[i]) as u8;
    let is_given = given.dom().contains(c);
    &&& cell.given == is_given
    &&& cell.user_value == (if is_given || (1 <= v <= 9) {
        Some(v)
    } else {
        None
    })
    &&& cell.answer == (if is_given {
        given[c]
    } else if v >= 1 {
        v
    } else {
        1u8
    })
    &&& cell.draft@ == Set::<u8>::empty()
    &&& cell.draft_visible
}

/// Reads back a board: the cells at `coords` from the puzzle string, given where the given
/// string holds a digit 1 to 9.
pub fn deserialize_grid_from(puzzle_data: &str, given_data: &str, coords: &[CubeCoord]) -> (r: CubeGrid)
    requires
        distinct_cells(coords@),
        readable(puzzle_data@, coords@.len() as int),
        readable(given_data@, coords@.len() as int),
    ensures
        r.wf(),
        forall|c: CubeCoord|
            #[trigger] r@.dom().contains(c) <==> exists|i: int|
                0 <= i < read_len(puzzle_data@, coords@) && coords@[i] == c,
        forall|i: int|
            0 <= i < read_len(puzzle_data@, coords@) ==> cell_read(
                puzzle_data@,
                read_digits(given_data@, coords@),
                coords@[i],
                i,
                r@[#[trigger] coords@[i]],
            ),
{
    let given = deserialize_solution_from(given_data, coords);
    let mut grid = CubeGrid::empty();
    let n = puzzle_data.unicode_len();
    let ghost gm = read_digits(given_data@, coords@);
    let mut i: usize = 0;
    while i < coords.len() && i < n
        invariant
            n == puzzle_data@.len(),
            grid.wf(),
            given@ == gm,
            distinct_cells(coords@),
            readable(puzzle_data@, coords@.len() as int),
            i <= coords@.len(),
            forall|c: CubeCoord|
                #[trigger] grid@.dom().contains(c) <==> exists|k: int| 0 <= k < i && k < n && coords@[k] == c,
            forall|k: int|
                0 <= k < i && k < n ==> cell_read(puzzle_data@, gm, coords@[k], k, grid@[#[trigger] coords@[k]]),
        decreases coords@.len() - i,
    {
        let c = coords[i];
        proof {
            assert(c.in_box());
            crate::cube::lemma_slot_bijection(c, 0);
        }
        let v = read_digit(puzzle_data, i);
        let gv = given.get(&c);
        let is_given = gv.is_some();
        let user_value = if is_given || (v >= 1 && v <= 9) {
            Some(v)
        } else {
            None
        };
        let answer = match gv {
            Some(a) => a,
            None => if v >= 1 {
                v
            } else {
                1
            },
        };
        let cell = Cell { answer, given: is_given, user_value, draft: std::collections::BTreeSet::new(), draft_visible: true };
        let ghost before = grid@;
        let s = crate::cube::slot_of(c);
        grid.cells.set(s, Some(cell));
        proof {
            assert forall|d: CubeCoord| d.in_box() && d.slot() == c.slot() implies d == c by {
                crate::cube::lemma_slot_injective(d, c);
            }
            assert(grid@ =~= before.insert(c, cell));
            assert forall|k: int| 0 <= k < i + 1 && k < n implies cell_read(
                puzzle_data@,
                gm,
                coords@[k],
                k,
                grid@[#[trigger] coords@[k]],
            ) by {
                if k < i {
                    assert(coords@[k] != coords@[i as int]);
                }
            }
        }
        i = i + 1;
    }
    proof {
        assert forall|c: CubeCoord|
            #[trigger] grid@.dom().contains(c) <==> exists|k: int|
                0 <= k < read_len(puzzle_data@, coords@) && coords@[k] == c by {
            if grid@.dom().contains(c) {
                let k = choose|k: int| 0 <= k < i && k < n && coords@[k] == c;
                assert(0 <= k < read_len(puzzle_data@, coords@));
            }
            if exists|k: int| 0 <= k < read_len(puzzle_data@, coords@) && coords@[k] == c {
                let k = choose|k: int| 0 <= k < read_len(puzzle_data@, coords@) && coords@[k] == c;
                assert(k < i && k < n);
            }
        }
    }
    grid
}

/// The base64 alphabet: `A-Z`, `a-z`, `0-9`, `+`, `/`.
pub open spec fn b64_alpha(i: u32) -> char {
    if i < 26 {
        (65 + i) as char
    } else if i < 52 {
        (97 + (i - 26)) as char
    } else if i < 62 {
        (48 + (i - 52)) as char
    } else if i == 62 {
        '+'
    } else {
        '/'
    }
}

/// The position of a character in the base64 alphabet.
pub open spec fn b64_value(c: char) -> Option<u32> {
    let x = c as u32;
    if 65 <= x <= 90 {
        Some((x - 65) as u32)
    } else if 97 <= x <= 122 {
        Some((x - 97 + 26) as u32)
    } else if 48 <= x <= 57 {
        Some((x - 48 + 52) as u32)
    } else if c == '+' {
        Some(62u32)
    } else if c == '/' {
        Some(63u32)
    } else {
        None
    }
}

/// The four characters that encode a chunk of one to three bytes (`=` pads a short chunk).
pub open spec fn b64_chunk(d: Seq<u8>) -> Seq<char> {
    let b0 = d[0] as u32;
    let b1 = if d.len() > 1 {
        d[1] as u32
    } else {
        0u32
    };
    let b2 = if d.len() > 2 {
        d[2] as u32
    } else {
        0u32
    };
    seq![
        b64_alpha((b0 >> 2u32) & 63u32),
        b64_alpha(((b0 << 4u32) | (b1 >> 4u32)) & 63u32),
        if d.len() > 1 {
            b64_alpha(((b1 << 2u32) | (b2 >> 6u32)) & 63u32)
        } else {
            '='
        },
        if d.len() > 2 {
            b64_alpha(b2 & 63u32)
        } else {
            '='
        },
    ]
}

/// The base64 text of `d`, three bytes to four characters.
pub open spec fn b64_encode(d: Seq<u8>) -> Seq<char>
    decreases d.len(),
{
    if d.len() == 0 {
        Seq::empty()
    } else if d.len() <= 3 {
        b64_chunk(d)
    } else {
        b64_chunk(d.take(3)) + b64_encode(d.skip(3))
    }
}

fn alpha_char(i: u32) -> (r: char)
    requires
        i < 64,
    ensures
        r == b64_alpha(i),
{
    if i < 26 {
        ((65 + i) as u8) as char
    } else if i < 52 {
        ((97 + (i - 26)) as u8) as char
    } else if i < 62 {
        ((48 + (i - 52)) as u8) as char
    } else if i == 62 {
        '+'
    } else {
        '/'
    }
}

/// The base64 text of `data`.
pub fn base64_encode(data: &[u8]) -> (r: String)
    ensures
        r@ == b64_encode(data@),
{
    let n = data.len();
    let mut r = String::new();
    let mut i: usize = 0;
    proof {
        assert(data@.skip(0) =~= data@);
        assert(r@ + b64_encode(data@.skip(0)) =~= b64_encode(data@));
    }
    while i < n
        invariant
            n == data@.len(),
            i <= n,
            r@ + b64_encode(data@.skip(i as int)) == b64_encode(data@),
        decreases n - i,
    {
        let rest = n - i;
        let b0 = data[i] as u32;
        let b1: u32 = if rest > 1 {
            data[i + 1] as u32
        } else {
            0
        };
        let b2: u32 = if rest > 2 {
            data[i + 2] as u32
        } else {
            0
        };
        let ghost before = r@;
        let ghost chunk = if rest <= 3 {
            data@.skip(i as int)
        } else {
            data@.skip(i as int).take(3)
        };
        assert((b0 >> 2u32) & 63u32 < 64) by (bit_vector);
        assert(((b0 << 4u32) | (b1 >> 4u32)) & 63u32 < 64) by (bit_vector);
        assert(((b1 << 2u32) | (b2 >> 6u32)) & 63u32 < 64) by (bit_vector);
        assert(b2 & 63u32 < 64) by (bit_vector);
        push_char(&mut r, alpha_char((b0 >> 2) & 0x3F));
        push_char(&mut r, alpha_char(((b0 << 4) | (b1 >> 4)) & 0x3F));
        if rest > 1 {
            push_char(&mut r, alpha_char(((b1 << 2) | (b2 >> 6)) & 0x3F));
        } else {
            push_char(&mut r, '=');
        }
        if rest > 2 {
            push_char(&mut r, alpha_char(b2 & 0x3F));
        } else {
            push_char(&mut r, '=');
        }
        proof {
            assert(r@ =~= before + b64_chunk(chunk));
            if rest <= 3 {
                assert(data@.skip(i as int) =~= chunk);
                assert(data@.skip(n as int) =~= Seq::<u8>::empty());
            } else {
                assert(data@.skip(i as int).skip(3) =~= data@.skip(i + 3));
            }
        }
        if rest <= 3 {
            i = n;
        } else {
            i = i + 3;
        }
    }
    proof {
        assert(data@.skip(n as int) =~= Seq::<u8>::empty());
    }
    r
}

/// The length of `s` up to `n` without its trailing `=` characters.
pub open spec fn unpadded_len(s: Seq<char>, n: int) -> int
    decreases n,
{
    if n > 0 && s[n - 1] == '=' {
        unpadded_len(s, n - 1)
    } else {
        n
    }
}

/// Whether every character of `s` is in the base64 alphabet.
pub open spec fn all_b64(s: Seq<char>) -> bool {
    forall|i: int| 0 <= i < s.len() ==> (#[trigger] b64_value(s[i])) is Some
}

/// The bytes that groups of four 6-bit values encode (a final group of two or three values
/// gives one or two bytes, a single value none).
pub open spec fn b64_groups(v: Seq<u32>) -> Seq<u8>
    decreases v.len(),
{
    if v.len() <= 1 {
        Seq::empty()
    } else {
        let v0 = v[0];
        let v1 = v[1];
        let v2 = if v.len() > 2 {
            v[2]
        } else {
            0u32
        };
        let v3 = if v.len() > 3 {
            v[3]
        } else {
            0u32
        };
        let b0 = (((v0 << 2u32) | (v1 >> 4u32)) & 255u32) as u8;
        let b1 = ((((v1 & 15u32) << 4u32) | (v2 >> 2u32)) & 255u32) as u8;
        let b2 = ((((v2 & 3u32) << 6u32) | v3) & 255u32) as u8;
        if v.len() == 2 {
            seq![b0]
        } else if v.len() == 3 {
            seq![b0, b1]
        } else if v.len() == 4 {
            seq![b0, b1, b2]
        } else {
            seq![b0, b1, b2] + b64_groups(v.skip(4))
        }
    }
}

/// The bytes of base64 text `s`: trailing `=` are dropped, and any other character outside
/// the alphabet makes it invalid.
pub open spec fn b64_decode(s: Seq<char>) -> Option<Seq<u8>> {
    let t = s.take(unpadded_len(s, s.len() as int));
    if all_b64(t) {
        Some(b64_groups(Seq::new(t.len(), |i: int| b64_value(t[i])->0)))
    } else {
        None
    }
}

proof fn lemma_unpadded_len(s: Seq<char>, n: int)
    requires
        0 <= n <= s.len(),
    ensures
        0 <= unpadded_len(s, n) <= n,
    decreases n,
{
    if n > 0 && s[n - 1] == '=' {
        lemma_unpadded_len(s, n - 1);
    }
}

fn alpha_value(c: char) -> (r: Option<u32>)
    ensures
        r == b64_value(c),
        r matches Some(x) ==> x < 64,
{
    let x = c as u32;
    if 65 <= x && x <= 90 {
        Some(x - 65)
    } else if 97 <= x && x <= 122 {
        Some(x - 97 + 26)
    } else if 48 <= x && x <= 57 {
        Some(x - 48 + 52)
    } else if c == '+' {
        Some(62)
    } else if c == '/' {
        Some(63)
    } else {
        None
    }
}

/// The bytes of base64 text `input`, or `None` when it holds a character outside the
/// alphabet (trailing `=` excepted).
pub fn base64_decode(input: &str) -> (r: Option<Vec<u8>>)
    ensures
        match r {
            Some(v) => b64_decode(input@) == Some(v@),
            None => b64_decode(input@) is None,
        },
{
    let n = input.unicode_len();
    let mut m: usize = n;
    while m > 0 && input.get_char(m - 1) == '='
        invariant
            m <= n,
            n == input@.len(),
            unpadded_len(input@, n as int) == unpadded_len(input@, m as int),
        decreases m,
    {
        m = m - 1;
    }
    proof {
        lemma_unpadded_len(input@, n as int);
        assert(unpadded_len(input@, m as int) == m as int);
    }
    let ghost t = input@.take(m as int);
    let mut vals: Vec<u32> = Vec::new();
    let mut i: usize = 0;
    while i < m
        invariant
            m <= n,
            n == input@.len(),
            t == input@.take(m as int),
            unpadded_len(input@, input@.len() as int) == m as int,
            i <= m,
            vals@.len() == i,
            forall|k: int| 0 <= k < i ==> b64_value(t[k]) == Some(#[trigger] vals@[k]),
            forall|k: int| 0 <= k < i ==> #[trigger] vals@[k] < 64,
        decreases m - i,
    {
        match alpha_value(input.get_char(i)) {
            Some(x) => {
                vals.push(x);
            },
            None => {
                proof {
                    assert(b64_value(t[i as int]) is None);
                    assert(!all_b64(t));
                }
                return None;
            },
        }
        i = i + 1;
    }
    proof {
        assert forall|k: int| 0 <= k < t.len() implies (#[trigger] b64_value(t[k])) is Some by {
            assert(b64_value(t[k]) == Some(vals@[k]));
        }
        assert(all_b64(t));
        assert(vals@ =~= Seq::new(t.len(), |k: int| b64_value(t[k])->0));
    }
    let mut r: Vec<u8> = Vec::new();
    let mut j: usize = 0;
    proof {
        assert(vals@.skip(0) =~= vals@);
        assert(r@ + b64_groups(vals@.skip(0)) =~= b64_groups(vals@));
    }
    while j < m
        invariant
            m == vals@.len(),
            j <= m,
            r@ + b64_groups(vals@.skip(j as int)) == b64_groups(vals@),
        decreases m - j,
    {
        let rest = m - j;
        if rest == 1 {
            proof {
                assert(vals@.skip(j as int).len() == 1);
                assert(vals@.skip(m as int) =~= Seq::<u32>::empty());
            }
            j = m;
        } else {
            let v0 = vals[j];
            let v1 = vals[j + 1];
            let v2: u32 = if rest > 2 {
                vals[j + 2]
            } else {
                0
            };
            let v3: u32 = if rest > 3 {
                vals[j + 3]
            } else {
                0
            };
            let ghost before = r@;
            let ghost g = vals@.skip(j as int);
            r.push((((v0 << 2) | (v1 >> 4)) & 255) as u8);
            if rest > 2 {
                r.push(((((v1 & 15) << 4) | (v2 >> 2)) & 255) as u8);
            }
            if rest > 3 {
                r.push(((((v2 & 3) << 6) | v3) & 255) as u8);
            }
            proof {
                if rest <= 4 {
                    assert(r@ =~= before + b64_groups(g));
                    assert(vals@.skip(m as int) =~= Seq::<u32>::empty());
                } else {
                    assert(g.skip(4) =~= vals@.skip(j + 4));
                    assert(r@ + b64_groups(vals@.skip(j + 4)) =~= before + b64_groups(g));
                }
            }
            if rest <= 4 {
                j = m;
            } else {
                j = j + 4;
            }
        }
    }
    proof {
        assert(vals@.skip(m as int) =~= Seq::<u32>::empty());
        assert(r@ =~= b64_groups(vals@));
    }
    Some(r)
}

/// std's `String::from_utf8`: the text that `bytes` encode when they are valid UTF-8, and
/// nothing otherwise. The claim is what its documentation states, with validity and
/// decoding as vstd's `valid_utf8` and `decode_utf8` define them.
#[verifier::external_body]
fn string_from_utf8(bytes: Vec<u8>) -> (r: Option<String>)
    ensures
        match r {
            Some(s) => valid_utf8(bytes@) && s@ == decode_utf8(bytes@),
            None => !valid_utf8(bytes@),
        },
{
    String::from_utf8(bytes).ok()
}

/// The text of an encrypted payload: base64, then the XOR layer, then UTF-8.
pub open spec fn decrypted(b64: Seq<char>) -> Option<Seq<char>> {
    match b64_decode(b64) {
        Some(bytes) => if valid_utf8(xored(bytes)) {
            Some(decode_utf8(xored(bytes)))
        } else {
            None
        },
        None => None,
    }
}

/// Decodes an encrypted payload (base64 of the XORed text) back to the text.
pub fn decrypt_payload(b64: &str) -> (r: Option<String>)
    ensures
        match r {
            Some(s) => decrypted(b64@) == Some(s@),
            None => decrypted(b64@) is None,
        },
{
    match base64_decode(b64) {
        Some(decoded) => {
            let decrypted = xor_crypt(decoded.as_slice());
            string_from_utf8(decrypted)
        },
        None => None,
    }
}

/// Whether `c` is white space in Unicode's sense (what `char::is_whitespace` tests).
pub open spec fn is_ws(c: char) -> bool {
    let x = c as u32;
    (9 <= x <= 13) || x == 32 || x == 0x85 || x == 0xA0 || x == 0x1680 || (0x2000 <= x <= 0x200A) || x
        == 0x2028 || x == 0x2029 || x == 0x202F || x == 0x205F || x == 0x3000
}

/// The index of the first character from `i` on that is not white space.
pub open spec fn lead_end(s: Seq<char>, i: int) -> int
    decreases s.len() - i,
{
    if 0 <= i < s.len() && is_ws(s[i]) {
        lead_end(s, i + 1)
    } else {
        i
    }
}

/// The end of `s` before `j` without trailing white space, not going below `lo`.
pub open spec fn trail_end(s: Seq<char>, j: int, lo: int) -> int
    decreases j - lo,
{
    if lo < j && is_ws(s[j - 1]) {
        trail_end(s, j - 1, lo)
    } else {
        j
    }
}

/// `s` without leading and trailing white space (what `str::trim` gives).
pub open spec fn trimmed(s: Seq<char>) -> Seq<char> {
    let a = lead_end(s, 0);
    s.subrange(a, trail_end(s, s.len() as int, a))
}

proof fn lemma_lead_end(s: Seq<char>, i: int)
    requires
        0 <= i <= s.len(),
    ensures
        i <= lead_end(s, i) <= s.len(),
    decreases s.len() - i,
{
    if i < s.len() && is_ws(s[i]) {
        lemma_lead_end(s, i + 1);
    }
}

proof fn lemma_trail_end(s: Seq<char>, j: int, lo: int)
    requires
        lo <= j,
    ensures
        lo <= trail_end(s, j, lo) <= j,
    decreases j - lo,
{
    if lo < j && is_ws(s[j - 1]) {
        lemma_trail_end(s, j - 1, lo);
    }
}

fn is_ws_char(c: char) -> (r: bool)
    ensures
        r == is_ws(c),
{
    let x = c as u32;
    (9 <= x && x <= 13) || x == 32 || x == 0x85 || x == 0xA0 || x == 0x1680 || (0x2000 <= x && x <= 0x200A)
        || x == 0x2028 || x == 0x2029 || x == 0x202F || x == 0x205F || x == 0x3000
}

/// `s` without leading and trailing white space.
fn trim_ws(s: &str) -> (r: &str)
    ensures
        r@ == trimmed(s@),
{
    let n = s.unicode_len();
    let mut a: usize = 0;
    while a < n && is_ws_char(s.get_char(a))
        invariant
            n == s@.len(),
            a <= n,
            lead_end(s@, 0) == lead_end(s@, a as int),
        decreases n - a,
    {
        a = a + 1;
    }
    let mut b: usize = n;
    while b > a && is_ws_char(s.get_char(b - 1))
        invariant
            n == s@.len(),
            a <= b <= n,
            trail_end(s@, n as int, a as int) == trail_end(s@, b as int, a as int),
        decreases b - a,
    {
        b = b - 1;
    }
    s.substring_char(a, b)
}

/// Whether `s` starts with `p`.
pub open spec fn starts_with(s: Seq<char>, p: Seq<char>) -> bool {
    p.len() <= s.len() && s.subrange(0, p.len() as int) == p
}

/// Whether `s` starts with `p`.
fn has_prefix(s: &str, p: &str) -> (r: bool)
    ensures
        r == starts_with(s@, p@),
{
    let n = s.unicode_len();
    let m = p.unicode_len();
    if m > n {
        return false;
    }
    let mut i: usize = 0;
    while i < m
        invariant
            n == s@.len(),
            m == p@.len(),
            m <= n,
            i <= m,
            forall|k: int| 0 <= k < i ==> s@[k] == p@[k],
        decreases m - i,
    {
        if s.get_char(i) != p.get_char(i) {
            proof {
                assert(s@.subrange(0, m as int)[i as int] != p@[i as int]);
            }
            return false;
        }
        i = i + 1;
    }
    proof {
        assert(s@.subrange(0, m as int) =~= p@);
    }
    true
}

/// The index of the first `|` in `s` at or after `k`, or -1.
pub open spec fn bar_from(s: Seq<char>, k: int) -> int
    decreases s.len() - k,
{
    if k < 0 || k >= s.len() {
        -1
    } else if s[k] == '|' {
        k
    } else {
        bar_from(s, k + 1)
    }
}

pub proof fn lemma_bar_from(s: Seq<char>, k: int)
    requires
        0 <= k,
    ensures
        bar_from(s, k) == -1 || (k <= bar_from(s, k) < s.len() && s[bar_from(s, k)] == '|'),
        bar_from(s, k) == -1 ==> forall|i: int| k <= i < s.len() ==> s[i] != '|',
        bar_from(s, k) >= 0 ==> forall|i: int| k <= i < bar_from(s, k) ==> s[i] != '|',
    decreases s.len() - k,
{
    if k < s.len() && s[k] != '|' {
        lemma_bar_from(s, k + 1);
    }
}

/// The pieces of `s` between `|` separators, at most `n` of them: the last piece keeps the
/// rest of `s` (as `str::splitn` cuts; `n` past the number of pieces splits at every `|`).
pub open spec fn split_bars(s: Seq<char>, n: nat) -> Seq<Seq<char>>
    decreases s.len(),
{
    let i = bar_from(s, 0);
    if n <= 1 || i < 0 {
        seq![s]
    } else {
        proof {
            lemma_bar_from(s, 0);
        }
        seq![s.take(i)] + split_bars(s.skip(i + 1), (n - 1) as nat)
    }
}

/// A split has at least one piece.
proof fn lemma_split_nonempty(s: Seq<char>, n: nat)
    ensures
        split_bars(s, n).len() >= 1,
    decreases s.len(),
{
    let i = bar_from(s, 0);
    if n > 1 && i >= 0 {
        lemma_bar_from(s, 0);
        lemma_split_nonempty(s.skip(i + 1), (n - 1) as nat);
    }
}

/// Splits `s` at `|`, into at most `n` pieces (`n` at least 1).
fn split_bars_exec(s: &str, n: usize) -> (r: Vec<String>)
    requires
        n >= 1,
    ensures
        r.deep_view() == split_bars(s@, n as nat),
{
    let len = s.unicode_len();
    let mut pieces: Vec<String> = Vec::new();
    let mut start: usize = 0;
    let mut left: usize = n;
    proof {
        assert(s@.skip(0) =~= s@);
        assert(pieces.deep_view() + split_bars(s@.skip(0), n as nat) =~= split_bars(s@, n as nat));
    }
    loop
        invariant
            len == s@.len(),
            start <= len,
            left >= 1,
            pieces.deep_view() + split_bars(s@.skip(start as int), left as nat) == split_bars(s@, n as nat),
        decreases len - start,
    {
        let ghost rest = s@.skip(start as int);
        let mut i: usize = start;
        if left > 1 {
            while i < len && s.get_char(i) != '|'
                invariant
                    len == s@.len(),
                    start <= i <= len,
                    rest == s@.skip(start as int),
                    bar_from(rest, 0) == bar_from(rest, (i - start) as int),
                decreases len - i,
            {
                i = i + 1;
            }
        } else {
            i = len;
        }
        proof {
            lemma_bar_from(rest, 0);
        }
        if i >= len {
            let piece = String::from_str(s.substring_char(start, len));
            proof {
                assert(s@.subrange(start as int, len as int) =~= rest);
                let ghost old_deep = pieces.deep_view();
                assert(split_bars(rest, left as nat) == seq![rest]);
            }
            let ghost before = pieces.deep_view();
            pieces.push(piece);
            proof {
                assert(pieces.deep_view() =~= before.push(rest));
                assert(before + seq![rest] =~= before.push(rest));
            }
            return pieces;
        }
        let piece = String::from_str(s.substring_char(start, i));
        proof {
            let k = (i - start) as int;
            assert(bar_from(rest, 0) == k);
            assert(s@.subrange(start as int, i as int) =~= rest.take(k));
            assert(rest.skip(k + 1) =~= s@.skip(i + 1));
        }
        let ghost before = pieces.deep_view();
        pieces.push(piece);
        proof {
            assert(pieces.deep_view() =~= before.push(rest.take((i - start) as int)));
            assert(pieces.deep_view() + split_bars(s@.skip(i + 1), (left - 1) as nat) =~= before + split_bars(rest, left as nat));
        }
        start = i + 1;
        left = left - 1;
    }
}

/// The plain text of an import: the trimmed input, decrypted when it carries an encrypted
/// prefix (`SUDOKUBES!` is tested before `SUDOKUBE!`, which it starts with).
pub open spec fn import_text(data: Seq<char>) -> Option<Seq<char>> {
    let t = trimmed(data);
    if starts_with(t, "SUDOKUBES!"@) {
        decrypted(t.skip(10))
    } else if starts_with(t, "SUDOKUBE!"@) {
        decrypted(t.skip(9))
    } else {
        Some(t)
    }
}

/// The fields of a batch after its `SUDOKUBES|` prefix.
pub open spec fn batch_parts(raw: Seq<char>) -> Seq<Seq<char>> {
    split_bars(raw.skip(10), usize::MAX as nat)
}

/// Whether the game count of a batch import, when there is one, is small enough that the
/// number of fields it implies can be computed.
pub open spec fn import_fits(data: Seq<char>) -> bool {
    match import_text(data) {
        Some(raw) => starts_with(raw, "SUDOKUBES|"@) ==> match crate::text::parsed_usize(batch_parts(raw)[0]) {
            Some(count) => 1 + count * 4 <= usize::MAX,
            None => true,
        },
        None => true,
    }
}

/// The games an import holds, as (difficulty, answer, puzzle, given) texts: a batch
/// `SUDOKUBES|count|...` with exactly four fields per game, or a single game
/// `SUDOKUBE|difficulty|answer|puzzle|given` whose last field keeps any further `|`.
pub open spec fn imported(data: Seq<char>) -> Option<Seq<(Seq<char>, Seq<char>, Seq<char>, Seq<char>)>> {
    match import_text(data) {
        None => None,
        Some(raw) => if starts_with(raw, "SUDOKUBES|"@) {
            let parts = batch_parts(raw);
            match crate::text::parsed_usize(parts[0]) {
                None => None,
                Some(count) => if parts.len() != 1 + count * 4 {
                    None
                } else {
                    Some(
                        Seq::new(
                            count as nat,
                            |k: int| (parts[1 + 4 * k], parts[2 + 4 * k], parts[3 + 4 * k], parts[4 + 4 * k]),
                        ),
                    )
                },
            }
        } else if starts_with(raw, "SUDOKUBE|"@) {
            let parts = split_bars(raw.skip(9), 4);
            if parts.len() != 4 {
                None
            } else {
                Some(seq![(parts[0], parts[1], parts[2], parts[3])])
            }
        } else {
            None
        },
    }
}

/// The texts of a list of games.
pub open spec fn game_texts(v: Seq<(String, String, String, String)>) -> Seq<(Seq<char>, Seq<char>, Seq<char>, Seq<char>)> {
    Seq::new(v.len(), |i: int| (v[i].0@, v[i].1@, v[i].2@, v[i].3@))
}

/// Reads one or more exported games (see `imported`).
pub fn import_games(data: &str) -> (r: Option<Vec<(String, String, String, String)>>)
    requires
        import_fits(data@),
    ensures
        match r {
            Some(v) => imported(data@) == Some(game_texts(v@)),
            None => imported(data@) is None,
        },
{
    proof {
        reveal_strlit("SUDOKUBES!");
        reveal_strlit("SUDOKUBE!");
        reveal_strlit("SUDOKUBES|");
        reveal_strlit("SUDOKUBE|");
    }
    let trimmed_text = trim_ws(data);
    let raw: String = if has_prefix(trimmed_text, "SUDOKUBES!") {
        proof {
            assert(trimmed_text@.subrange(10, trimmed_text@.len() as int) =~= trimmed_text@.skip(10));
        }
        match decrypt_payload(trimmed_text.substring_char(10, trimmed_text.unicode_len())) {
            Some(t) => t,
            None => {
                return None;
            },
        }
    } else if has_prefix(trimmed_text, "SUDOKUBE!") {
        proof {
            assert(trimmed_text@.subrange(9, trimmed_text@.len() as int) =~= trimmed_text@.skip(9));
        }
        match decrypt_payload(trimmed_text.substring_char(9, trimmed_text.unicode_len())) {
            Some(t) => t,
            None => {
                return None;
            },
        }
    } else {
        String::from_str(trimmed_text)
    };
    proof {
        assert(import_text(data@) == Some(raw@));
    }
    let raw_str = raw.as_str();
    if has_prefix(raw_str, "SUDOKUBES|") {
        let rest = raw_str.substring_char(10, raw_str.unicode_len());
        proof {
            assert(rest@ =~= raw@.skip(10));
        }
        let parts = split_bars_exec(rest, usize::MAX);
        proof {
            assert(parts@.len() == parts.deep_view().len());
            lemma_split_nonempty(rest@, usize::MAX as nat);
        }
        let count = match crate::text::parse_usize(parts[0].as_str()) {
            Some(c) => c,
            None => {
                proof {
                    assert(parts.deep_view()[0] == parts@[0]@);
                }
                return None;
            },
        };
        proof {
            assert(parts.deep_view()[0] == parts@[0]@);
        }
        if parts.len() != 1 + count * 4 {
            return None;
        }
        let mut result: Vec<(String, String, String, String)> = Vec::new();
        let mut idx: usize = 1;
        let mut k: usize = 0;
        while k < count
            invariant
                parts@.len() == 1 + count * 4,
                1 + count * 4 <= usize::MAX,
                idx == 1 + 4 * k,
                k <= count,
                result@.len() == k,
                forall|j: int|
                    0 <= j < k ==> (#[trigger] result@[j]).0@ == parts@[1 + 4 * j]@ && result@[j].1@ == parts@[2 + 4
                        * j]@ && result@[j].2@ == parts@[3 + 4 * j]@ && result@[j].3@ == parts@[4 + 4 * j]@,
            decreases count - k,
        {
            proof {
                assert(idx + 3 < parts@.len()) by (nonlinear_arith)
                    requires
                        idx == 1 + 4 * k,
                        k < count,
                        parts@.len() == 1 + count * 4,
                ;
            }
            result.push(
                (
                    parts[idx].clone(),
                    parts[idx + 1].clone(),
                    parts[idx + 2].clone(),
                    parts[idx + 3].clone(),
                ),
            );
            idx = idx + 4;
            k = k + 1;
        }
        proof {
            let pv = parts.deep_view();
            assert forall|j: int| 0 <= j < pv.len() implies pv[j] == parts@[j]@ by {}
            assert(game_texts(result@) =~= Seq::new(
                count as nat,
                |j: int| (pv[1 + 4 * j], pv[2 + 4 * j], pv[3 + 4 * j], pv[4 + 4 * j]),
            ));
        }
        return Some(result);
    }
    if has_prefix(raw_str, "SUDOKUBE|") {
        let rest = raw_str.substring_char(9, raw_str.unicode_len());
        proof {
            assert(rest@ =~= raw@.skip(9));
        }
        let parts = split_bars_exec(rest, 4);
        if parts.len() != 4 {
            return None;
        }
        let mut result: Vec<(String, String, String, String)> = Vec::new();
        result.push((parts[0].clone(), parts[1].clone(), parts[2].clone(), parts[3].clone()));
        proof {
            let pv = parts.deep_view();
            assert(game_texts(result@) =~= seq![(pv[0], pv[1], pv[2], pv[3])]);
        }
        return Some(result);
    }
    None
}

/// Whether `s` lists the surface cells in increasing slot order (the order of the save
/// format).
pub open spec fn is_surface_order(s: Seq<CubeCoord>) -> bool {
    &&& s.no_duplicates()
    &&& crate::cube::slots_increasing(s)
    &&& forall|d: CubeCoord| s.contains(d) <==> d.on_surface()
}

/// The name a difficulty is stored under.
pub open spec fn difficulty_name(d: Difficulty) -> Seq<char> {
    match d {
        Difficulty::Easy => "简单"@,
        Difficulty::Medium => "中等"@,
        Difficulty::Hard => "困难"@,
    }
}

/// The plain export of a game: `SUDOKUBE|difficulty|answer|puzzle|given`.
pub open spec fn export_plain(diff: Difficulty, answer: Seq<char>, puzzle: Seq<char>, given: Seq<char>) -> Seq<char> {
    "SUDOKUBE|"@ + difficulty_name(diff) + "|"@ + answer + "|"@ + puzzle + "|"@ + given
}

/// The encrypted form of an export: `SUDOKUBE!` and the base64 of its XORed UTF-8 bytes.
pub open spec fn encrypt_export(prefix: Seq<char>, raw: Seq<char>) -> Seq<char> {
    prefix + b64_encode(xored(vstd::utf8::encode_utf8(raw)))
}

/// The export of `state` with the cells listed in `coords`.
pub open spec fn exported(state: &crate::game_state::GameState, coords: Seq<CubeCoord>, encrypted: bool) -> Seq<char> {
    let raw = export_plain(
        state.difficulty,
        Seq::new(coords.len(), |i: int| value_char(lookup(state.solution@, coords[i]))),
        Seq::new(coords.len(), |i: int| state.grid.char_at(coords[i])),
        Seq::new(coords.len(), |i: int| given_char(state.grid@, coords[i])),
    );
    if encrypted {
        encrypt_export("SUDOKUBE!"@, raw)
    } else {
        raw
    }
}

/// Exports a game: its difficulty, answer, puzzle and givens in surface order, encrypted
/// when asked.
pub fn export_game(state: &crate::game_state::GameState, encrypted: bool) -> (r: String)
    requires
        state.grid.wf(),
        writable(state.solution@),
        grid_writable(state.grid@),
    ensures
        exists|coords: Seq<CubeCoord>| is_surface_order(coords) && r@ == exported(state, coords, encrypted),
{
    let coords = crate::cube::iter_surface_coords();
    let answer_str = serialize_solution(&state.solution, coords.as_slice());
    let puzzle_str = state.grid.serialize(coords.as_slice());
    let given_str = serialize_given(&state.grid, coords.as_slice());
    let mut raw = String::from_str("SUDOKUBE|");
    raw.append(state.difficulty.as_str());
    raw.append("|");
    raw.append(answer_str.as_str());
    raw.append("|");
    raw.append(puzzle_str.as_str());
    raw.append("|");
    raw.append(given_str.as_str());
    proof {
        assert(raw@ =~= export_plain(state.difficulty, answer_str@, puzzle_str@, given_str@));
        assert(is_surface_order(coords@));
    }
    if encrypted {
        let bytes = raw.as_str().as_bytes();
        let x = xor_crypt(bytes);
        let mut r = String::from_str("SUDOKUBE!");
        let enc = base64_encode(x.as_slice());
        r.append(enc.as_str());
        proof {
            assert(r@ == encrypt_export("SUDOKUBE!"@, raw@));
            assert(r@ == exported(state, coords@, encrypted));
        }
        r
    } else {
        proof {
            assert(raw@ == exported(state, coords@, encrypted));
        }
        raw
    }
}

/// A stored game: its number, when it was started and finished (as stored, in the form
/// `YYYY-MM-DD hh:mm:ss`), the seconds played, its difficulty by name, whether it was won,
/// and its answer, the player's values and the given cells' digits.
#[derive(Clone)]
pub struct GameRecord {
    pub id: i64,
    pub started_at: String,
    pub finished_at: Option<String>,
    pub elapsed_seconds: i64,
    pub difficulty: String,
    pub completed: bool,
    pub answer: DigitMap,
    pub puzzle: DigitMap,
    pub given: DigitMap,
}

/// The values of `m` at `coords`, in order, as digit characters (`'0'` for none).
pub open spec fn digit_text(m: Map<CubeCoord, u8>, coords: Seq<CubeCoord>) -> Seq<char> {
    Seq::new(coords.len(), |i: int| value_char(lookup(m, coords[i])))
}

/// The four texts a stored game is exported as: its difficulty name, answer, player values
/// and givens over `coords`.
pub open spec fn record_texts(r: GameRecord, coords: Seq<CubeCoord>) -> (Seq<char>, Seq<char>, Seq<char>, Seq<char>) {
    (r.difficulty@, digit_text(r.answer@, coords), digit_text(r.puzzle@, coords), digit_text(r.given@, coords))
}

/// The `k`-th of four texts.
pub open spec fn text_of(t: (Seq<char>, Seq<char>, Seq<char>, Seq<char>), k: int) -> Seq<char> {
    if k == 0 {
        t.0
    } else if k == 1 {
        t.1
    } else if k == 2 {
        t.2
    } else {
        t.3
    }
}

/// The fields of a batch export after its tag: the number of games, then four texts for each.
pub open spec fn batch_fields(records: Seq<GameRecord>, coords: Seq<CubeCoord>) -> Seq<Seq<char>> {
    Seq::new(
        1 + 4 * records.len(),
        |j: int| if j == 0 {
            decimal(records.len())
        } else {
            text_of(record_texts(records[(j - 1) / 4], coords), (j - 1) % 4)
        },
    )
}

/// `fields` joined by `|`.
pub open spec fn joined(fields: Seq<Seq<char>>) -> Seq<char>
    decreases fields.len(),
{
    if fields.len() == 0 {
        Seq::empty()
    } else if fields.len() == 1 {
        fields[0]
    } else {
        joined(fields.drop_last()) + "|"@ + fields.last()
    }
}

/// The batch export of stored games over the cells `coords`: `SUDOKUBES|count|...` with
/// four fields per game, encrypted under `SUDOKUBES!` when asked.
pub open spec fn exported_records(records: Seq<GameRecord>, coords: Seq<CubeCoord>, encrypted: bool) -> Seq<char> {
    let raw = "SUDOKUBES|"@ + joined(batch_fields(records, coords));
    if encrypted {
        encrypt_export("SUDOKUBES!"@, raw)
    } else {
        raw
    }
}

/// Exports stored games in one text: their number, then each one's difficulty, answer,
/// player values and givens in surface order, encrypted when asked.
pub fn export_records(records: &[GameRecord], encrypted: bool) -> (r: String)
    requires
        forall|k: int|
            0 <= k < records@.len() ==> {
                &&& writable(#[trigger] records@[k].answer@)
                &&& writable(records@[k].puzzle@)
                &&& writable(records@[k].given@)
            },
    ensures
        exists|coords: Seq<CubeCoord>| is_surface_order(coords) && r@ == exported_records(records@, coords, encrypted),
{
    let coords = crate::cube::iter_surface_coords();
    let ghost fields = batch_fields(records@, coords@);
    let mut raw = String::from_str("SUDOKUBES|");
    push_decimal(&mut raw, records.len());
    proof {
        assert(fields.take(1) =~= seq![decimal(records@.len())]);
    }
    for i in 0..records.len()
        invariant
            coords@.len() == 386,
            fields == batch_fields(records@, coords@),
            forall|k: int|
                0 <= k < records@.len() ==> {
                    &&& writable(#[trigger] records@[k].answer@)
                    &&& writable(records@[k].puzzle@)
                    &&& writable(records@[k].given@)
                },
            raw@ == "SUDOKUBES|"@ + joined(fields.take(1 + 4 * i)),
    {
        let rec = &records[i];
        let a = serialize_solution(&rec.answer, coords.as_slice());
        let p = serialize_solution(&rec.puzzle, coords.as_slice());
        let g = serialize_solution(&rec.given, coords.as_slice());
        let ghost before = raw@;
        raw.append("|");
        raw.append(rec.difficulty.as_str());
        raw.append("|");
        raw.append(a.as_str());
        raw.append("|");
        raw.append(p.as_str());
        raw.append("|");
        raw.append(g.as_str());
        proof {
            let t = record_texts(records@[i as int], coords@);
            let s0 = fields.take(1 + 4 * i);
            let s1 = s0.push(t.0);
            let s2 = s1.push(t.1);
            let s3 = s2.push(t.2);
            let s4 = s3.push(t.3);
            assert(fields[1 + 4 * i] == t.0);
            assert(fields[2 + 4 * i] == t.1);
            assert(fields[3 + 4 * i] == t.2);
            assert(fields[4 + 4 * i] == t.3);
            assert(fields.take(1 + 4 * (i + 1)) =~= s4);
            assert(s1.drop_last() =~= s0);
            assert(s2.drop_last() =~= s1);
            assert(s3.drop_last() =~= s2);
            assert(s4.drop_last() =~= s3);
            assert(a@ == t.1);
            assert(p@ == t.2);
            assert(g@ == t.3);
            assert(joined(s1) == joined(s0) + "|"@ + t.0);
            assert(joined(s2) == joined(s1) + "|"@ + t.1);
            assert(joined(s3) == joined(s2) + "|"@ + t.2);
            assert(joined(s4) == joined(s3) + "|"@ + t.3);
            assert(raw@ =~= before + "|"@ + t.0 + "|"@ + t.1 + "|"@ + t.2 + "|"@ + t.3);
            assert(raw@ =~= "SUDOKUBES|"@ + joined(s4));
        }
    }
    proof {
        assert(fields.take(1 + 4 * records@.len() as int) =~= fields);
        assert(is_surface_order(coords@));
    }
    if encrypted {
        let bytes = raw.as_str().as_bytes();
        let x = xor_crypt(bytes);
        let mut r = String::from_str("SUDOKUBES!");
        let enc = base64_encode(x.as_slice());
        r.append(enc.as_str());
        proof {
            assert(r@ == encrypt_export("SUDOKUBES!"@, raw@));
        }
        r
    } else {
        raw
    }
}

/// Reading back a serialized assignment gives the assignment on the listed cells: the
/// digits written are read again, and empty cells stay empty.
pub proof fn lemma_solution_round_trip(solution: Map<CubeCoord, u8>, coords: Seq<CubeCoord>)
    requires
        forall|c: CubeCoord| #[trigger] solution.dom().contains(c) ==> 1 <= solution[c] <= 9,
        coords.no_duplicates(),
    ensures
        ({
            let text = Seq::new(coords.len(), |i: int| value_char(lookup(solution, coords[i])));
            read_digits(text, coords) == Map::new(
                |c: CubeCoord| solution.dom().contains(c) && coords.contains(c),
                |c: CubeCoord| solution[c],
            )
        }),
{
    let text = Seq::new(coords.len(), |i: int| value_char(lookup(solution, coords[i])));
    let m = read_digits(text, coords);
    let want = Map::new(|c: CubeCoord| solution.dom().contains(c) && coords.contains(c), |c: CubeCoord| solution[c]);
    assert forall|i: int| 0 <= i < coords.len() implies #[trigger] char_digit(text[i]) == (if solution.dom().contains(
        coords[i],
    ) {
        solution[coords[i]] as int
    } else {
        0
    }) by {
        if solution.dom().contains(coords[i]) {
            let v = solution[coords[i]];
            assert(((48 + v) as char) as u32 == 48 + v);
        }
    }
    assert forall|c: CubeCoord| m.dom().contains(c) <==> want.dom().contains(c) by {
        if want.dom().contains(c) {
            let i = choose|i: int| 0 <= i < coords.len() && coords[i] == c;
            assert(char_digit(text[i]) == solution[c]);
        }
    }
    assert forall|c: CubeCoord| #[trigger] m.dom().contains(c) implies m[c] == want[c] by {
        let i = choose|i: int| 0 <= i < text.len() && 0 <= i < coords.len() && coords[i] == c;
        assert(char_digit(text[i]) == solution[c]);
    }
    assert(m =~= want);
}

/// The four characters of a chunk without its padding.
spec fn b64_chunk_core(d: Seq<u8>) -> Seq<char> {
    b64_chunk(d).take(d.len() as int + 1)
}

/// Base64 text without its padding.
spec fn b64_core(d: Seq<u8>) -> Seq<char>
    decreases d.len(),
{
    if d.len() == 0 {
        Seq::empty()
    } else if d.len() <= 3 {
        b64_chunk_core(d)
    } else {
        b64_chunk_core(d.take(3)) + b64_core(d.skip(3))
    }
}

/// `k` padding characters.
spec fn pads(k: int) -> Seq<char> {
    Seq::new(k as nat, |i: int| '=')
}

/// The number of padding characters of the encoding of `d`.
spec fn pad_count(d: Seq<u8>) -> int {
    if d.len() % 3 == 0 {
        0
    } else {
        3 - d.len() % 3
    }
}

proof fn lemma_alpha(i: u32)
    requires
        i < 64,
    ensures
        b64_value(b64_alpha(i)) == Some(i),
        b64_alpha(i) != '=',
{
}

#[verifier::spinoff_prover]
#[verifier::rlimit(40)]
proof fn lemma_b64_split(d: Seq<u8>)
    ensures
        b64_encode(d) == b64_core(d) + pads(pad_count(d)),
        forall|k: int| 0 <= k < b64_core(d).len() ==> b64_value(#[trigger] b64_core(d)[k]) is Some,
        d.len() > 0 ==> b64_core(d).len() > 0,
        b64_core(d).len() % 4 == (if d.len() % 3 == 0 {
            0
        } else {
            d.len() % 3 + 1
        }),
    decreases d.len(),
{
    if d.len() == 0 {
        assert(b64_encode(d) =~= b64_core(d) + pads(0));
    } else {
        let c = if d.len() <= 3 {
            d
        } else {
            d.take(3)
        };
        let b0 = c[0] as u32;
        let b1 = if c.len() > 1 {
            c[1] as u32
        } else {
            0u32
        };
        let b2 = if c.len() > 2 {
            c[2] as u32
        } else {
            0u32
        };
        assert((b0 >> 2u32) & 63u32 < 64) by (bit_vector);
        assert(((b0 << 4u32) | (b1 >> 4u32)) & 63u32 < 64) by (bit_vector);
        assert(((b1 << 2u32) | (b2 >> 6u32)) & 63u32 < 64) by (bit_vector);
        assert(b2 & 63u32 < 64) by (bit_vector);
        lemma_alpha((b0 >> 2u32) & 63u32);
        lemma_alpha(((b0 << 4u32) | (b1 >> 4u32)) & 63u32);
        lemma_alpha(((b1 << 2u32) | (b2 >> 6u32)) & 63u32);
        lemma_alpha(b2 & 63u32);
        if d.len() <= 3 {
            assert(b64_encode(d) =~= b64_core(d) + pads(pad_count(d)));
        } else {
            lemma_b64_split(d.skip(3));
            assert(d.skip(3).len() % 3 == d.len() % 3);
            assert(pad_count(d.skip(3)) == pad_count(d));
            assert(b64_encode(d) =~= b64_core(d) + pads(pad_count(d)));
        }
        assert forall|k: int| 0 <= k < b64_core(d).len() implies b64_value(#[trigger] b64_core(d)[k]) is Some by {
            if d.len() > 3 && k >= 4 {
                assert(b64_core(d)[k] == b64_core(d.skip(3))[k - 4]);
            }
        }
    }
}

proof fn lemma_unpadded_pads(core: Seq<char>, k: int)
    requires
        0 <= k,
        core.len() > 0 ==> core.last() != '=',
    ensures
        unpadded_len(core + pads(k), core.len() + k) == core.len(),
    decreases k,
{
    let s = core + pads(k);
    if k > 0 {
        assert(s[core.len() + k - 1] == '=');
        let s2 = core + pads(k - 1);
        lemma_unpadded_pads(core, k - 1);
        lemma_unpadded_same_prefix(s, s2, core.len() + k - 1);
    } else {
        if core.len() > 0 {
            assert(s[core.len() - 1] == core.last());
        }
    }
}

proof fn lemma_unpadded_same_prefix(s: Seq<char>, t: Seq<char>, n: int)
    requires
        0 <= n <= s.len(),
        n <= t.len(),
        forall|i: int| 0 <= i < n ==> s[i] == t[i],
    ensures
        unpadded_len(s, n) == unpadded_len(t, n),
    decreases n,
{
    if n > 0 {
        lemma_unpadded_same_prefix(s, t, n - 1);
    }
}

proof fn lemma_groups_chunk(b0: u8, b1: u8, b2: u8)
    ensures
        ({
            let x0 = b0 as u32;
            let x1 = b1 as u32;
            let x2 = b2 as u32;
            let v0 = (x0 >> 2u32) & 63u32;
            let v1 = ((x0 << 4u32) | (x1 >> 4u32)) & 63u32;
            let v2 = ((x1 << 2u32) | (x2 >> 6u32)) & 63u32;
            let v3 = x2 & 63u32;
            &&& (((v0 << 2u32) | (v1 >> 4u32)) & 255u32) as u8 == b0
            &&& ((((v1 & 15u32) << 4u32) | (v2 >> 2u32)) & 255u32) as u8 == b1
            &&& ((((v2 & 3u32) << 6u32) | v3) & 255u32) as u8 == b2
        }),
{
    let x0 = b0 as u32;
    let x1 = b1 as u32;
    let x2 = b2 as u32;
    assert(x0 < 256 && x1 < 256 && x2 < 256);
    assert(((((x0 >> 2u32) & 63u32) << 2u32) | ((((x0 << 4u32) | (x1 >> 4u32)) & 63u32) >> 4u32)) & 255u32 == x0)
        by (bit_vector)
        requires
            x0 < 256,
            x1 < 256,
    ;
    assert((((((x0 << 4u32) | (x1 >> 4u32)) & 63u32) & 15u32) << 4u32 | ((((x1 << 2u32) | (x2 >> 6u32)) & 63u32)
        >> 2u32)) & 255u32 == x1) by (bit_vector)
        requires
            x0 < 256,
            x1 < 256,
            x2 < 256,
    ;
    assert((((((x1 << 2u32) | (x2 >> 6u32)) & 63u32) & 3u32) << 6u32 | (x2 & 63u32)) & 255u32 == x2) by (bit_vector)
        requires
            x1 < 256,
            x2 < 256,
    ;
}

/// The 6-bit values of base64 text.
spec fn values_of(s: Seq<char>) -> Seq<u32> {
    Seq::new(s.len(), |i: int| b64_value(s[i])->0)
}

proof fn lemma_groups_of_core(d: Seq<u8>)
    ensures
        b64_groups(values_of(b64_core(d))) == d,
    decreases d.len(),
{
    if d.len() > 0 {
        let c = if d.len() <= 3 {
            d
        } else {
            d.take(3)
        };
        let b0 = c[0];
        let b1 = if c.len() > 1 {
            c[1]
        } else {
            0u8
        };
        let b2 = if c.len() > 2 {
            c[2]
        } else {
            0u8
        };
        lemma_groups_chunk(b0, b1, b2);
        let x0 = b0 as u32;
        let x1 = b1 as u32;
        let x2 = b2 as u32;
        assert((x0 >> 2u32) & 63u32 < 64) by (bit_vector);
        assert(((x0 << 4u32) | (x1 >> 4u32)) & 63u32 < 64) by (bit_vector);
        assert(((x1 << 2u32) | (x2 >> 6u32)) & 63u32 < 64) by (bit_vector);
        assert(x2 & 63u32 < 64) by (bit_vector);
        lemma_alpha((x0 >> 2u32) & 63u32);
        lemma_alpha(((x0 << 4u32) | (x1 >> 4u32)) & 63u32);
        lemma_alpha(((x1 << 2u32) | (x2 >> 6u32)) & 63u32);
        lemma_alpha(x2 & 63u32);
        if d.len() <= 3 {
            assert(b64_groups(values_of(b64_core(d))) =~= d);
        } else {
            lemma_groups_of_core(d.skip(3));
            let v = values_of(b64_core(d));
            assert(v.skip(4) =~= values_of(b64_core(d.skip(3))));
            lemma_b64_split(d.skip(3));
            assert(b64_groups(v) =~= d);
        }
    }
}

/// Base64 decoding gives back the bytes that were encoded.
pub proof fn lemma_base64_round_trip(d: Seq<u8>)
    ensures
        b64_decode(b64_encode(d)) == Some(d),
{
    lemma_b64_split(d);
    let core = b64_core(d);
    let e = b64_encode(d);
    if core.len() > 0 {
        assert(b64_value(core[core.len() - 1]) is Some);
    }
    lemma_unpadded_pads(core, pad_count(d));
    assert(e.take(unpadded_len(e, e.len() as int)) =~= core);
    assert(all_b64(core));
    lemma_groups_of_core(d);
    assert(Seq::new(core.len(), |i: int| b64_value(core[i])->0) =~= values_of(core));
}

/// Whether `s` holds no `|`.
pub open spec fn no_bar(s: Seq<char>) -> bool {
    forall|i: int| 0 <= i < s.len() ==> s[i] != '|'
}

proof fn lemma_bar_after_prefix(a: Seq<char>, rest: Seq<char>, k: int)
    requires
        0 <= k <= a.len(),
        no_bar(a),
    ensures
        bar_from(a + "|"@ + rest, k) == a.len(),
    decreases a.len() - k,
{
    reveal_strlit("|");
    let s = a + "|"@ + rest;
    if k < a.len() {
        assert(s[k] == a[k]);
        lemma_bar_after_prefix(a, rest, k + 1);
    } else {
        assert(s[k] == '|');
    }
}

proof fn lemma_split_step(a: Seq<char>, rest: Seq<char>, n: nat)
    requires
        no_bar(a),
        n > 1,
    ensures
        split_bars(a + "|"@ + rest, n) == seq![a] + split_bars(rest, (n - 1) as nat),
{
    reveal_strlit("|");
    let s = a + "|"@ + rest;
    lemma_bar_after_prefix(a, rest, 0);
    assert(s.take(a.len() as int) =~= a);
    assert(s.skip(a.len() as int + 1) =~= rest);
}

proof fn lemma_difficulty_name(d: Difficulty)
    ensures
        no_bar(difficulty_name(d)),
{
    reveal_strlit("简单");
    reveal_strlit("中等");
    reveal_strlit("困难");
}

/// Reading the plain export text of a game gives back its four fields.
proof fn lemma_parse_export(diff: Difficulty, answer: Seq<char>, puzzle: Seq<char>, given: Seq<char>)
    requires
        no_bar(answer),
        no_bar(puzzle),
    ensures
        ({
            let raw = export_plain(diff, answer, puzzle, given);
            &&& !starts_with(raw, "SUDOKUBES|"@)
            &&& starts_with(raw, "SUDOKUBE|"@)
            &&& split_bars(raw.skip(9), 4) == seq![difficulty_name(diff), answer, puzzle, given]
        }),
{
    reveal_strlit("SUDOKUBES|");
    reveal_strlit("SUDOKUBE|");
    reveal_strlit("|");
    let raw = export_plain(diff, answer, puzzle, given);
    let name = difficulty_name(diff);
    lemma_difficulty_name(diff);
    assert(raw[8] == '|');
    assert(raw.subrange(0, 9) =~= "SUDOKUBE|"@);
    let body = raw.skip(9);
    assert(body =~= name + "|"@ + (answer + "|"@ + (puzzle + "|"@ + given)));
    lemma_split_step(name, answer + "|"@ + (puzzle + "|"@ + given), 4);
    lemma_split_step(answer, puzzle + "|"@ + given, 3);
    lemma_split_step(puzzle, given, 2);
    assert(split_bars(given, 1) == seq![given]);
    assert(split_bars(body, 4) =~= seq![name, answer, puzzle, given]);
}

proof fn lemma_trimmed_unchanged(s: Seq<char>)
    requires
        s.len() > 0,
        !is_ws(s[0]),
        !is_ws(s.last()),
    ensures
        trimmed(s) == s,
{
    assert(lead_end(s, 0) == 0);
    assert(trail_end(s, s.len() as int, 0) == s.len());
    assert(s.subrange(0, s.len() as int) =~= s);
}

/// Importing the plain export of a game gives back its difficulty name, answer, puzzle and
/// givens (when the answer and puzzle hold no `|` and the givens end in a character that
/// is not white space, as digit strings do).
pub proof fn lemma_import_plain_export(diff: Difficulty, answer: Seq<char>, puzzle: Seq<char>, given: Seq<char>)
    requires
        no_bar(answer),
        no_bar(puzzle),
        given.len() > 0,
        !is_ws(given.last()),
    ensures
        imported(export_plain(diff, answer, puzzle, given)) == Some(
            seq![(difficulty_name(diff), answer, puzzle, given)],
        ),
        import_fits(export_plain(diff, answer, puzzle, given)),
{
    reveal_strlit("SUDOKUBES!");
    reveal_strlit("SUDOKUBE!");
    reveal_strlit("SUDOKUBE|");
    reveal_strlit("SUDOKUBES|");
    let raw = export_plain(diff, answer, puzzle, given);
    assert(raw[0] == 'S');
    assert(raw.last() == given.last());
    lemma_trimmed_unchanged(raw);
    assert(raw[8] == '|');
    lemma_parse_export(diff, answer, puzzle, given);
    assert(import_text(raw) == Some(raw));
    assert(!starts_with(raw, "SUDOKUBES|"@)) by {
        if raw.len() >= 10 {
            assert(raw.subrange(0, 10)[8] == '|');
        }
    }
}

/// The last character of base64 text is never white space.
proof fn lemma_b64_last(d: Seq<u8>)
    requires
        d.len() > 0,
    ensures
        b64_encode(d).len() > 0,
        !is_ws(b64_encode(d).last()),
{
    lemma_b64_split(d);
    let core = b64_core(d);
    let k = pad_count(d);
    let e = b64_encode(d);
    if k > 0 {
        assert(e.last() == '=');
    } else {
        assert(core.len() > 0);
        assert(e.last() == core[core.len() - 1]);
        assert(b64_value(core[core.len() - 1]) is Some);
    }
}

/// Importing the encrypted export of a game gives back its fields, as the plain one does.
pub proof fn lemma_import_encrypted_export(diff: Difficulty, answer: Seq<char>, puzzle: Seq<char>, given: Seq<char>)
    requires
        no_bar(answer),
        no_bar(puzzle),
        given.len() > 0,
        !is_ws(given.last()),
    ensures
        imported(encrypt_export("SUDOKUBE!"@, export_plain(diff, answer, puzzle, given))) == Some(
            seq![(difficulty_name(diff), answer, puzzle, given)],
        ),
        import_fits(encrypt_export("SUDOKUBE!"@, export_plain(diff, answer, puzzle, given))),
{
    reveal_strlit("SUDOKUBES!");
    reveal_strlit("SUDOKUBE!");
    reveal_strlit("SUDOKUBE|");
    reveal_strlit("SUDOKUBES|");
    let raw = export_plain(diff, answer, puzzle, given);
    let bytes = vstd::utf8::encode_utf8(raw);
    let x = xored(bytes);
    let data = encrypt_export("SUDOKUBE!"@, raw);
    assert(raw[0] == 'S');
    vstd::utf8::encode_utf8_first_scalar(raw);
    assert(bytes.len() > 0) by {
        vstd::utf8::encode_utf8_decode_utf8(raw);
        if bytes.len() == 0 {
            assert(vstd::utf8::decode_utf8(bytes) =~= Seq::<char>::empty());
        }
    }
    lemma_b64_last(x);
    assert(data.last() == b64_encode(x).last());
    assert(data[0] == 'S');
    lemma_trimmed_unchanged(data);
    assert(data[8] == '!');
    assert(data.subrange(0, 9) =~= "SUDOKUBE!"@);
    assert(data.skip(9) =~= b64_encode(x));
    lemma_base64_round_trip(x);
    lemma_xor_involutive(bytes);
    vstd::utf8::encode_utf8_valid_utf8(raw);
    vstd::utf8::encode_utf8_decode_utf8(raw);
    assert(decrypted(data.skip(9)) == Some(raw));
    assert(import_text(data) == Some(raw));
    lemma_parse_export(diff, answer, puzzle, given);
    assert(raw[8] == '|');
    assert(!starts_with(raw, "SUDOKUBES|"@)) by {
        if raw.len() >= 10 {
            assert(raw.subrange(0, 10)[8] == '|');
        }
    }
}

/// `f` is its first field, a `|`, and the join of the rest.
proof fn lemma_joined_front(f: Seq<Seq<char>>)
    requires
        f.len() >= 2,
    ensures
        joined(f) == f[0] + "|"@ + joined(f.skip(1)),
    decreases f.len(),
{
    if f.len() == 2 {
        assert(f.drop_last() =~= seq![f[0]]);
        assert(f.skip(1) =~= seq![f[1]]);
        assert(joined(f.drop_last()) == f[0]);
        assert(joined(f.skip(1)) == f[1]);
    } else {
        lemma_joined_front(f.drop_last());
        assert(f.drop_last().skip(1) =~= f.skip(1).drop_last());
        assert(joined(f.skip(1)) == joined(f.skip(1).drop_last()) + "|"@ + f.last());
        assert(joined(f) =~= f[0] + "|"@ + joined(f.skip(1)));
    }
}

/// Splitting a join of fields without `|`, into at least as many pieces, gives the fields.
proof fn lemma_split_joined(f: Seq<Seq<char>>, n: nat)
    requires
        1 <= f.len() <= n,
        forall|k: int| 0 <= k < f.len() ==> no_bar(#[trigger] f[k]),
    ensures
        split_bars(joined(f), n) == f,
    decreases f.len(),
{
    if f.len() == 1 {
        assert(no_bar(f[0]));
        lemma_bar_from(f[0], 0);
        assert(f =~= seq![f[0]]);
    } else {
        lemma_joined_front(f);
        assert(no_bar(f[0]));
        lemma_split_step(f[0], joined(f.skip(1)), n);
        assert forall|k: int| 0 <= k < f.skip(1).len() implies no_bar(#[trigger] f.skip(1)[k]) by {
            assert(no_bar(f[k + 1]));
        }
        lemma_split_joined(f.skip(1), (n - 1) as nat);
        assert(seq![f[0]] + f.skip(1) =~= f);
    }
}

/// Whether every value of `m` is a digit from 1 to 9.
pub open spec fn digits_only(m: Map<CubeCoord, u8>) -> bool {
    forall|c: CubeCoord| #[trigger] m.dom().contains(c) ==> 1 <= m[c] <= 9
}

proof fn lemma_digit_text_no_bar(m: Map<CubeCoord, u8>, coords: Seq<CubeCoord>)
    requires
        digits_only(m),
    ensures
        no_bar(digit_text(m, coords)),
{
    let t = digit_text(m, coords);
    assert forall|i: int| 0 <= i < t.len() implies t[i] != '|' by {
        if m.dom().contains(coords[i]) {
            assert(1 <= m[coords[i]] <= 9);
        }
    }
}

/// The last of the fields of a batch export is not white space at its end.
proof fn lemma_batch_last(records: Seq<GameRecord>, coords: Seq<CubeCoord>)
    requires
        coords.len() > 0,
        records.len() <= usize::MAX,
        forall|k: int| 0 <= k < records.len() ==> digits_only(#[trigger] records[k].given@),
    ensures
        ({
            let f = batch_fields(records, coords);
            f.last().len() > 0 && !is_ws(f.last().last())
        }),
{
    let f = batch_fields(records, coords);
    let n = records.len();
    if n == 0 {
        crate::text::lemma_decimal_parses(0);
        assert(f.last() == decimal(0));
    } else {
        let j = 4 * n as int;
        assert((j - 1) / 4 == n - 1);
        assert((j - 1) % 4 == 3);
        let g = records[n - 1].given@;
        assert(digits_only(g));
        assert(f.last() == digit_text(g, coords));
        let c = coords[coords.len() - 1];
        if g.dom().contains(c) {
            assert(1 <= g[c] <= 9);
        }
    }
}

/// Importing the batch export of stored games, plain or encrypted, gives back each game's
/// difficulty name, answer, player values and givens as they were written (when no
/// difficulty name holds a `|`, and the number of fields fits a `usize`); the export meets
/// what `import_games` asks of its input, so `import_games` returns exactly these games.
#[verifier::spinoff_prover]
#[verifier::rlimit(40)]
pub proof fn lemma_import_exported_records(records: Seq<GameRecord>, coords: Seq<CubeCoord>, encrypted: bool)
    requires
        is_surface_order(coords),
        1 + 4 * records.len() <= usize::MAX,
        forall|k: int|
            0 <= k < records.len() ==> {
                &&& no_bar(#[trigger] records[k].difficulty@)
                &&& digits_only(records[k].answer@)
                &&& digits_only(records[k].puzzle@)
                &&& digits_only(records[k].given@)
            },
    ensures
        imported(exported_records(records, coords, encrypted)) == Some(
            Seq::new(records.len(), |k: int| record_texts(records[k], coords)),
        ),
        import_fits(exported_records(records, coords, encrypted)),
{
    reveal_strlit("SUDOKUBES!");
    reveal_strlit("SUDOKUBE!");
    reveal_strlit("SUDOKUBES|");
    let n = records.len();
    let f = batch_fields(records, coords);
    let raw = "SUDOKUBES|"@ + joined(f);
    let witness = CubeCoord { x: 0, y: 0, z: 0 };
    assert(witness.on_surface());
    assert(coords.contains(witness));
    assert(coords.len() > 0);
    crate::text::lemma_decimal_parses(n);
    assert forall|j: int| 0 <= j < f.len() implies no_bar(#[trigger] f[j]) by {
        if j == 0 {
            assert forall|i: int| 0 <= i < decimal(n).len() implies decimal(n)[i] != '|' by {
                assert(48 <= (decimal(n)[i] as u32) <= 57);
            }
        } else {
            let k = (j - 1) / 4;
            assert(0 <= k < n);
            let r = records[k];
            assert(no_bar(r.difficulty@));
            lemma_digit_text_no_bar(r.answer@, coords);
            lemma_digit_text_no_bar(r.puzzle@, coords);
            lemma_digit_text_no_bar(r.given@, coords);
        }
    }
    assert forall|k: int| 0 <= k < n implies digits_only(#[trigger] records[k].given@) by {
        assert(no_bar(records[k].difficulty@));
    }
    lemma_batch_last(records, coords);
    lemma_split_joined(f, usize::MAX as nat);
    assert(raw.skip(10) =~= joined(f));
    assert(raw.subrange(0, 10) =~= "SUDOKUBES|"@);
    assert(raw[9] == '|');
    assert(raw[0] == 'S');
    if f.len() == 1 {
        assert(joined(f) == f[0]);
    } else {
        lemma_joined_front(f);
        lemma_joined_last(f);
    }
    assert(raw.last() == f.last().last());
    lemma_trimmed_unchanged(raw);
    let want = Seq::new(n, |k: int| record_texts(records[k], coords));
    assert(batch_parts(raw) == f);
    assert forall|k: int| 0 <= k < n implies (f[1 + 4 * k], f[2 + 4 * k], f[3 + 4 * k], f[4 + 4 * k]) == #[trigger] want[k] by {
        assert((1 + 4 * k - 1) / 4 == k);
        assert((2 + 4 * k - 1) / 4 == k);
        assert((3 + 4 * k - 1) / 4 == k);
        assert((4 + 4 * k - 1) / 4 == k);
        assert((1 + 4 * k - 1) % 4 == 0);
        assert((2 + 4 * k - 1) % 4 == 1);
        assert((3 + 4 * k - 1) % 4 == 2);
        assert((4 + 4 * k - 1) % 4 == 3);
    }
    if encrypted {
        let bytes = vstd::utf8::encode_utf8(raw);
        let x = xored(bytes);
        let data = encrypt_export("SUDOKUBES!"@, raw);
        vstd::utf8::encode_utf8_first_scalar(raw);
        assert(bytes.len() > 0) by {
            vstd::utf8::encode_utf8_decode_utf8(raw);
            if bytes.len() == 0 {
                assert(vstd::utf8::decode_utf8(bytes) =~= Seq::<char>::empty());
            }
        }
        lemma_b64_last(x);
        assert(data.last() == b64_encode(x).last());
        assert(data[0] == 'S');
        lemma_trimmed_unchanged(data);
        assert(data.subrange(0, 10) =~= "SUDOKUBES!"@);
        assert(data.skip(10) =~= b64_encode(x));
        lemma_base64_round_trip(x);
        lemma_xor_involutive(bytes);
        vstd::utf8::encode_utf8_valid_utf8(raw);
        vstd::utf8::encode_utf8_decode_utf8(raw);
        assert(decrypted(data.skip(10)) == Some(raw));
        assert(import_text(data) == Some(raw));
        assert(imported(data) =~= Some(want));
        assert(import_fits(data));
    } else {
        assert(raw.subrange(0, 10) != "SUDOKUBES!"@) by {
            assert(raw.subrange(0, 10)[9] == '|');
        }
        assert(raw.subrange(0, 9) != "SUDOKUBE!"@) by {
            assert(raw.subrange(0, 9)[8] == 'S');
        }
        assert(import_text(raw) == Some(raw));
        assert(imported(raw) =~= Some(want));
        assert(import_fits(raw));
    }
}

/// The join of two or more fields ends with the last one.
proof fn lemma_joined_last(f: Seq<Seq<char>>)
    requires
        f.len() >= 2,
        f.last().len() > 0,
    ensures
        joined(f).last() == f.last().last(),
{
    let a = joined(f.drop_last()) + "|"@;
    assert(joined(f) == a + f.last());
    assert((a + f.last()).last() == f.last().last());
}

/// Whether every player value of `grid` is a digit from 1 to 9.
pub open spec fn grid_digits(grid: Map<CubeCoord, Cell>) -> bool {
    forall|c: CubeCoord|
        #[trigger] grid.dom().contains(c) && grid[c].user_value is Some ==> 1 <= grid[c].user_value->0 <= 9
}

/// Importing the export of a game, plain or encrypted, gives back its difficulty name and
/// its answer, player values and givens as they were written (when its values are digits
/// 1 to 9, as a game's are); the export meets what `import_games` asks of its input, so
/// `import_games` returns exactly this game.
pub proof fn lemma_import_exported_game(state: crate::game_state::GameState, coords: Seq<CubeCoord>, encrypted: bool)
    requires
        is_surface_order(coords),
        digits_only(state.solution@),
        grid_digits(state.grid@),
    ensures
        imported(exported(&state, coords, encrypted)) == Some(
            seq![
                (
                    difficulty_name(state.difficulty),
                    Seq::new(coords.len(), |i: int| value_char(lookup(state.solution@, coords[i]))),
                    Seq::new(coords.len(), |i: int| state.grid.char_at(coords[i])),
                    Seq::new(coords.len(), |i: int| given_char(state.grid@, coords[i])),
                ),
            ],
        ),
        import_fits(exported(&state, coords, encrypted)),
{
    let a = Seq::new(coords.len(), |i: int| value_char(lookup(state.solution@, coords[i])));
    let p = Seq::new(coords.len(), |i: int| state.grid.char_at(coords[i]));
    let g = Seq::new(coords.len(), |i: int| given_char(state.grid@, coords[i]));
    assert(a == digit_text(state.solution@, coords));
    lemma_digit_text_no_bar(state.solution@, coords);
    assert forall|i: int| 0 <= i < p.len() implies p[i] != '|' by {
        let c = coords[i];
        if state.grid@.dom().contains(c) && state.grid@[c].user_value is Some {
            assert(1 <= state.grid@[c].user_value->0 <= 9);
        }
    }
    let witness = CubeCoord { x: 0, y: 0, z: 0 };
    assert(witness.on_surface());
    assert(coords.contains(witness));
    let c = coords[coords.len() - 1];
    if state.grid@.dom().contains(c) && state.grid@[c].given && state.grid@[c].user_value is Some {
        assert(1 <= state.grid@[c].user_value->0 <= 9);
    }
    assert(g.last() == given_char(state.grid@, c));
    if encrypted {
        lemma_import_encrypted_export(state.difficulty, a, p, g);
    } else {
        lemma_import_plain_export(state.difficulty, a, p, g);
    }
}

} // verus!
