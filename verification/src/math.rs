//! Points, grid sizes and the four movement directions.

use vstd::prelude::*;
use crate::text::push_char;

verus! {

/// A cell position on the grid.
#[derive(Debug, Clone, Copy, PartialEq, Eq, Hash, Structural)]
pub struct Point {
    pub x: i32,
    pub y: i32,
}

impl Point {
    pub fn new(x: i32, y: i32) -> (p: Self)
        ensures
            p.x == x,
            p.y == y,
    {
        Self { x, y }
    }

    /// The neighbouring point one step in `dir`.
    pub fn direction(self, dir: Direction) -> (p: Self)
        requires
            dir.can_apply(self),
        ensures
            p == dir.spec_apply(self),
    {
        let mut p = self;
        dir.apply(&mut p);
        p
    }
}

/// The cell at row-major index `i` of a grid `w` cells wide.
pub open spec fn spec_cell(w: int, i: int) -> Point {
    Point { x: (i % w) as i32, y: (i / w) as i32 }
}

/// The dimensions of the grid.
#[derive(Debug, Clone, Copy, PartialEq, Eq, Structural)]
pub struct Size {
    pub width: i32,
    pub height: i32,
}

impl Size {
    /// Whether `p` lies inside the grid.
    pub open spec fn spec_contains(self, p: Point) -> bool {
        0 <= p.x < self.width && 0 <= p.y < self.height
    }

    /// The cells of the grid in row-major order, each row from left to right.
    pub open spec fn spec_cells(self) -> Seq<Point> {
        if self.width <= 0 || self.height <= 0 {
            Seq::empty()
        } else {
            Seq::new(
                (self.width * self.height) as nat,
                |i: int| spec_cell(self.width as int, i),
            )
        }
    }

    pub fn new(width: i32, height: i32) -> (s: Self)
        ensures
            s.width == width,
            s.height == height,
    {
        Self { width, height }
    }

    pub fn area(&self) -> (a: i32)
        requires
            i32::MIN <= self.width * self.height <= i32::MAX,
        ensures
            a == self.width * self.height,
    {
        self.width * self.height
    }

    pub fn contains(&self, p: &Point) -> (b: bool)
        ensures
            b == self.spec_contains(*p),
    {
        p.x >= 0 && p.y >= 0 && p.x < self.width && p.y < self.height
    }

    /// All cells of the grid, row by row from the top, each row from the left.
    pub fn iter(&self) -> (cells: Vec<Point>)
        ensures
            cells@ == self.spec_cells(),
            forall|i: int, j: int| 0 <= i < j < cells@.len() ==> cells@[i] != cells@[j],
    {
        proof {
            lemma_cells_distinct(*self);
        }
        let mut res: Vec<Point> = Vec::new();
        if self.width <= 0 || self.height <= 0 {
            return res;
        }
        let w = self.width;
        let h = self.height;
        let ghost wi = w as int;
        let mut y: i32 = 0;
        while y < h
            invariant
                w == self.width,
                h == self.height,
                wi == w as int,
                0 < w,
                0 < h,
                0 <= y <= h,
                res@.len() == y * wi,
                forall|i: int|
                    0 <= i < res@.len() ==> #[trigger] res@[i] == spec_cell(wi, i),
            decreases h - y,
        {
            let mut x: i32 = 0;
            while x < w
                invariant
                    w == self.width,
                    h == self.height,
                    wi == w as int,
                    0 < w,
                    0 < h,
                    0 <= y < h,
                    0 <= x <= w,
                    res@.len() == y * wi + x,
                    forall|i: int|
                        0 <= i < res@.len() ==> #[trigger] res@[i] == spec_cell(wi, i),
                decreases w - x,
            {
                proof {
                    vstd::arithmetic::div_mod::lemma_fundamental_div_mod_converse(
                        y * wi + x,
                        wi,
                        y as int,
                        x as int,
                    );
                }
                res.push(Point::new(x, y));
                x = x + 1;
            }
            assert(y * wi + wi == (y + 1) * wi) by (nonlinear_arith);
            y = y + 1;
        }
        assert(h * wi == self.width * self.height) by (nonlinear_arith)
            requires
                h == self.height,
                wi == self.width,
        ;
        assert(res@ =~= self.spec_cells());
        res
    }
}

/// The cells that `Size::iter` lists are exactly the points that
/// `Size::contains` accepts.
pub proof fn lemma_cells_are_contained(size: Size, p: Point)
    ensures
        size.spec_cells().contains(p) <==> size.spec_contains(p),
{
    let cells = size.spec_cells();
    let w = size.width as int;
    let h = size.height as int;
    if size.spec_contains(p) {
        let i = p.y * w + p.x;
        assert(0 <= i < w * h) by (nonlinear_arith)
            requires
                0 <= p.x < w,
                0 <= p.y < h,
                i == p.y * w + p.x,
        ;
        vstd::arithmetic::div_mod::lemma_fundamental_div_mod_converse(i, w, p.y as int, p.x as int);
        assert(cells[i] == p);
    }
    if cells.contains(p) {
        let i = choose|i: int| 0 <= i < cells.len() && cells[i] == p;
        assert(w > 0 && h > 0);
        assert(0 <= i % w < w) by (nonlinear_arith)
            requires
                w > 0,
        ;
        assert(0 <= i / w < h) by (nonlinear_arith)
            requires
                w > 0,
                h > 0,
                0 <= i < w * h,
        ;
    }
}

/// `Size::iter` lists no cell twice.
pub proof fn lemma_cells_distinct(size: Size)
    ensures
        forall|i: int, j: int|
            0 <= i < j < size.spec_cells().len() ==> #[trigger] size.spec_cells()[i] != #[trigger] size.spec_cells()[j],
{
    let cells = size.spec_cells();
    assert forall|i: int, j: int| 0 <= i < j < cells.len() implies #[trigger] cells[i] != #[trigger] cells[j] by {
        let w = size.width as int;
        let h = size.height as int;
        assert(w > 0 && h > 0);
        assert(0 <= i % w < w && 0 <= j % w < w) by (nonlinear_arith)
            requires
                w > 0,
        ;
        assert(0 <= i / w < h && 0 <= j / w < h) by (nonlinear_arith)
            requires
                w > 0,
                h > 0,
                0 <= i < w * h,
                0 <= j < w * h,
        ;
        assert(cells[i] == spec_cell(w, i));
        assert(cells[j] == spec_cell(w, j));
        if cells[i] == cells[j] {
            assert(i % w == j % w && i / w == j / w);
            vstd::arithmetic::div_mod::lemma_fundamental_div_mod(i, w);
            vstd::arithmetic::div_mod::lemma_fundamental_div_mod(j, w);
        }
    }
}

/// The number of cells that `Size::iter` lists is the grid's area (zero for
/// an empty grid).
pub proof fn lemma_cells_len(size: Size)
    ensures
        size.width > 0 && size.height > 0 ==> size.spec_cells().len() == size.width * size.height,
        size.width <= 0 || size.height <= 0 ==> size.spec_cells().len() == 0,
{
    if size.width > 0 && size.height > 0 {
        assert(size.width * size.height > 0) by (nonlinear_arith)
            requires
                size.width > 0,
                size.height > 0,
        ;
    }
}

/// One of the four moves a snake can make.
#[derive(Debug, Clone, Copy, PartialEq, Eq, Structural)]
pub enum Direction {
    Up,
    Down,
    Left,
    Right,
}

/// The error for a character that names no direction.
#[derive(Debug)]
pub struct DirFromCharError(pub char);

impl DirFromCharError {
    /// The error as text: `invalid move: <char>`.
    pub fn to_string(&self) -> (s: String)
        ensures
            s@ == "invalid move: "@.push(self.0),
    {
        let mut s = String::from_str("invalid move: ");
        push_char(&mut s, self.0);
        s
    }
}

/// The direction that a character names: `u`, `d`, `l` or `r`, in either case.
pub open spec fn spec_dir_from_char(c: char) -> Option<Direction> {
    if c == 'u' || c == 'U' {
        Some(Direction::Up)
    } else if c == 'd' || c == 'D' {
        Some(Direction::Down)
    } else if c == 'l' || c == 'L' {
        Some(Direction::Left)
    } else if c == 'r' || c == 'R' {
        Some(Direction::Right)
    } else {
        None
    }
}

/// The lower-case character of a direction.
pub open spec fn spec_dir_to_char(d: Direction) -> char {
    match d {
        Direction::Up => 'u',
        Direction::Down => 'd',
        Direction::Left => 'l',
        Direction::Right => 'r',
    }
}

impl Direction {
    /// The four directions.
    pub const ALL: [Direction; 4] = [Direction::Up, Direction::Down, Direction::Left, Direction::Right];

    pub open spec fn spec_opposite(self) -> Direction {
        match self {
            Direction::Up => Direction::Down,
            Direction::Down => Direction::Up,
            Direction::Right => Direction::Left,
            Direction::Left => Direction::Right,
        }
    }

    /// The offset of one step in this direction; `y` grows downwards.
    pub open spec fn dx(self) -> int {
        match self {
            Direction::Left => -1,
            Direction::Right => 1,
            _ => 0,
        }
    }

    pub open spec fn dy(self) -> int {
        match self {
            Direction::Up => -1,
            Direction::Down => 1,
            _ => 0,
        }
    }

    /// Whether the step from `p` stays within the range of `i32`.
    pub open spec fn can_apply(self, p: Point) -> bool {
        i32::MIN <= p.x + self.dx() <= i32::MAX && i32::MIN <= p.y + self.dy() <= i32::MAX
    }

    pub open spec fn spec_apply(self, p: Point) -> Point {
        Point { x: (p.x + self.dx()) as i32, y: (p.y + self.dy()) as i32 }
    }

    pub fn opposite(&self) -> (d: Direction)
        ensures
            d == self.spec_opposite(),
    {
        match self {
            Direction::Up => Direction::Down,
            Direction::Down => Direction::Up,
            Direction::Right => Direction::Left,
            Direction::Left => Direction::Right,
        }
    }

    pub fn apply(&self, vec: &mut Point)
        requires
            self.can_apply(*old(vec)),
        ensures
            *final(vec) == self.spec_apply(*old(vec)),
    {
        match self {
            Direction::Up => vec.y = vec.y - 1,
            Direction::Down => vec.y = vec.y + 1,
            Direction::Left => vec.x = vec.x - 1,
            Direction::Right => vec.x = vec.x + 1,
        }
    }

    /// The moves as text, one lower-case character per move.
    pub fn vec_to_string(vec: &Vec<Self>) -> (s: String)
        ensures
            s@ == spec_dirs_to_chars(vec@),
    {
        let mut s = String::new();
        let mut i: usize = 0;
        while i < vec.len()
            invariant
                0 <= i <= vec@.len(),
                s@ == spec_dirs_to_chars(vec@.take(i as int)),
            decreases vec@.len() - i,
        {
            let c = char::from(vec[i]);
            push_char(&mut s, c);
            assert(vec@.take(i as int + 1) =~= vec@.take(i as int).push(vec@[i as int]));
            assert(spec_dirs_to_chars(vec@.take(i as int + 1)) =~= spec_dirs_to_chars(
                vec@.take(i as int),
            ).push(c));
            i = i + 1;
        }
        assert(vec@.take(vec@.len() as int) =~= vec@);
        s
    }

    /// Reads moves from text; the first character that names no direction is
    /// the error.
    pub fn try_vec_from_string(string: String) -> (r: Result<Vec<Self>, DirFromCharError>)
        ensures
            match r {
                Ok(v) => spec_dirs_from_chars(string@) == Some(v@),
                Err(e) => spec_dirs_from_chars(string@) is None && spec_first_invalid_char(string@)
                    == e.0,
            },
    {
        let ghost cs = string@;
        let s: &str = string.as_str();
        let mut out: Vec<Direction> = Vec::new();
        for c in it: s.chars()
            invariant
                it.seq() == cs,
                cs == string@,
                out@.len() == it.index(),
                forall|j: int|
                    0 <= j < it.index() ==> spec_dir_from_char(#[trigger] cs[j]) == Some(
                        out@[j],
                    ),
        {
            match Direction::try_from(c) {
                Ok(d) => out.push(d),
                Err(e) => {
                    proof {
                        let k = it.index() as int;
                        assert(cs[k] == c);
                        lemma_first_invalid(cs, k);
                        assert(spec_dir_from_char(cs[k]) is None);
                        assert(!spec_all_valid(cs));
                    }
                    return Err(e);
                },
            }
        }
        proof {
            assert(spec_all_valid(cs));
            assert(out@ =~= spec_decode_valid(cs));
        }
        Ok(out)
    }
}

/// The characters of a sequence of moves.
pub open spec fn spec_dirs_to_chars(moves: Seq<Direction>) -> Seq<char> {
    moves.map_values(|d: Direction| spec_dir_to_char(d))
}

/// Whether every character names a direction.
pub open spec fn spec_all_valid(cs: Seq<char>) -> bool {
    forall|j: int| 0 <= j < cs.len() ==> (#[trigger] spec_dir_from_char(cs[j])) is Some
}

pub open spec fn spec_decode_valid(cs: Seq<char>) -> Seq<Direction> {
    cs.map_values(|c: char| spec_dir_from_char(c)->0)
}

/// The moves that a text names, if every character names one.
pub open spec fn spec_dirs_from_chars(cs: Seq<char>) -> Option<Seq<Direction>> {
    if spec_all_valid(cs) {
        Some(spec_decode_valid(cs))
    } else {
        None
    }
}

/// The first character of `cs` that names no direction.
pub open spec fn spec_first_invalid_char(cs: Seq<char>) -> char
    decreases cs.len(),
{
    if cs.len() == 0 {
        ' '
    } else if spec_dir_from_char(cs[0]) is None {
        cs[0]
    } else {
        spec_first_invalid_char(cs.drop_first())
    }
}

proof fn lemma_first_invalid(cs: Seq<char>, k: int)
    requires
        0 <= k < cs.len(),
        spec_dir_from_char(cs[k]) is None,
        forall|j: int| 0 <= j < k ==> (#[trigger] spec_dir_from_char(cs[j])) is Some,
    ensures
        spec_first_invalid_char(cs) == cs[k],
    decreases k,
{
    if k > 0 {
        let t = cs.drop_first();
        assert forall|j: int| 0 <= j < k - 1 implies (#[trigger] spec_dir_from_char(t[j])) is Some by {
            assert(t[j] == cs[j + 1]);
        }
        lemma_first_invalid(t, k - 1);
    }
}

impl From<Direction> for char {
    fn from(value: Direction) -> (c: char)
        ensures
            c == spec_dir_to_char(value),
    {
        match value {
            Direction::Up => 'u',
            Direction::Down => 'd',
            Direction::Left => 'l',
            Direction::Right => 'r',
        }
    }
}

impl vstd::std_specs::convert::FromSpecImpl<Direction> for char {
    open spec fn obeys_from_spec() -> bool {
        true
    }

    open spec fn from_spec(v: Direction) -> char {
        spec_dir_to_char(v)
    }
}

impl TryFrom<char> for Direction {
    type Error = DirFromCharError;

    fn try_from(value: char) -> (r: Result<Self, Self::Error>)
        ensures
            match r {
                Ok(d) => spec_dir_from_char(value) == Some(d),
                Err(e) => spec_dir_from_char(value) is None && e.0 == value,
            },
    {
        match value {
            'u' | 'U' => Ok(Self::Up),
            'd' | 'D' => Ok(Self::Down),
            'l' | 'L' => Ok(Self::Left),
            'r' | 'R' => Ok(Self::Right),
            _ => Err(DirFromCharError(value)),
        }
    }
}

impl vstd::std_specs::convert::TryFromSpecImpl<char> for Direction {
    open spec fn obeys_try_from_spec() -> bool {
        true
    }

    open spec fn try_from_spec(v: char) -> Result<Direction, DirFromCharError> {
        match spec_dir_from_char(v) {
            Some(d) => Ok(d),
            None => Err(DirFromCharError(v)),
        }
    }
}

/// Taking the opposite direction twice gives the direction back.
pub proof fn lemma_opposite_involutive(d: Direction)
    ensures
        d.spec_opposite().spec_opposite() == d,
        d.spec_opposite() != d,
{
}

/// A step followed by a step in the opposite direction returns to the start.
pub proof fn lemma_apply_opposite_returns(d: Direction, p: Point)
    requires
        d.can_apply(p),
    ensures
        d.spec_opposite().can_apply(d.spec_apply(p)),
        d.spec_opposite().spec_apply(d.spec_apply(p)) == p,
{
}

/// Reading back the character of a direction gives the direction.
pub proof fn lemma_char_roundtrip(d: Direction)
    ensures
        spec_dir_from_char(spec_dir_to_char(d)) == Some(d),
{
}

/// Reading back the text of a sequence of moves gives the same moves.
pub proof fn lemma_moves_text_roundtrip(moves: Seq<Direction>)
    ensures
        spec_dirs_from_chars(spec_dirs_to_chars(moves)) == Some(moves),
{
    let cs = spec_dirs_to_chars(moves);
    assert forall|j: int| 0 <= j < cs.len() implies (#[trigger] spec_dir_from_char(cs[j])) is Some by {
        lemma_char_roundtrip(moves[j]);
    }
    assert(spec_decode_valid(cs) =~= moves) by {
        assert forall|j: int| 0 <= j < moves.len() implies spec_decode_valid(cs)[j] == moves[j] by {
            lemma_char_roundtrip(moves[j]);
        }
    }
}

} // verus!
