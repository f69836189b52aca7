//! The maze grid: its cell symbols, validation and lookups.
use vstd::prelude::*;

verus! {

/// A maze: rows of cell symbols, row 0 at the top.
pub type Maze = Vec<Vec<char>>;

/// The symbols of wall cells: five wall textures and the goal's wall.
pub open spec fn wall_cell(cell: char) -> bool {
    cell == '#' || cell == '+' || cell == '%' || cell == '@' || cell == '&' || cell == '!'
}

/// The symbols a player or a ghost may stand on: floor, start and goal.
pub open spec fn walkable_cell(cell: char) -> bool {
    cell == ' ' || cell == 'p' || cell == 'g'
}

/// The rows of `maze`, as sequences.
pub open spec fn maze_rows(maze: Seq<Vec<char>>) -> Seq<Seq<char>> {
    Seq::new(maze.len(), |r: int| maze[r]@)
}

/// How many cells of `row` hold `target`.
pub open spec fn row_count(row: Seq<char>, target: char) -> nat
    decreases row.len(),
{
    if row.len() == 0 {
        0
    } else {
        row_count(row.drop_last(), target) + (if row.last() == target {
            1nat
        } else {
            0nat
        })
    }
}

/// How many cells of the grid hold `target`.
pub open spec fn grid_count(rows: Seq<Seq<char>>, target: char) -> nat
    decreases rows.len(),
{
    if rows.len() == 0 {
        0
    } else {
        grid_count(rows.drop_last(), target) + row_count(rows.last(), target)
    }
}

/// Every row has the same, non-zero, length as the first, and there is at
/// least one row.
pub open spec fn is_rectangular(rows: Seq<Seq<char>>) -> bool {
    &&& rows.len() > 0
    &&& forall|r: int| 0 <= r < rows.len() ==> #[trigger] rows[r].len() == rows[0].len()
    &&& rows[0].len() > 0
}

/// The outer ring of a rectangular grid is made of walls.
pub open spec fn walled_border(rows: Seq<Seq<char>>) -> bool {
    let h = rows.len();
    let w = rows[0].len();
    &&& forall|c: int| 0 <= c < w ==> wall_cell(#[trigger] rows[0][c]) && wall_cell(rows[h - 1][c])
    &&& forall|r: int| 0 <= r < h ==> wall_cell(#[trigger] rows[r][0]) && wall_cell(rows[r][w - 1])
}

/// A playable maze: rectangular, walled all around, with exactly one start
/// `p` and exactly one goal `g`.
pub open spec fn valid_maze(rows: Seq<Seq<char>>) -> bool {
    &&& is_rectangular(rows)
    &&& grid_count(rows, 'p') == 1
    &&& grid_count(rows, 'g') == 1
    &&& walled_border(rows)
}

/// Cell `(x, y)` (column, row) comes before `(x2, y2)` in reading order.
pub open spec fn reading_before(x: int, y: int, x2: int, y2: int) -> bool {
    y < y2 || (y == y2 && x < x2)
}

/// Whether `cell` is a wall.
pub fn is_wall(cell: char) -> (wall: bool)
    ensures
        wall == wall_cell(cell),
{
    cell == '#' || cell == '+' || cell == '%' || cell == '@' || cell == '&' || cell == '!'
}

/// Whether a player or a ghost may stand on `cell`.
pub fn is_walkable_cell(cell: char) -> (walkable: bool)
    ensures
        walkable == walkable_cell(cell),
{
    cell == ' ' || cell == 'p' || cell == 'g'
}

proof fn lemma_row_count_take(row: Seq<char>, target: char, i: int)
    requires
        0 <= i < row.len(),
    ensures
        row_count(row.take(i + 1), target) == row_count(row.take(i), target) + (if row[i]
            == target {
            1nat
        } else {
            0nat
        }),
{
    assert(row.take(i + 1).drop_last() =~= row.take(i));
}

proof fn lemma_grid_count_take(rows: Seq<Seq<char>>, target: char, r: int)
    requires
        0 <= r < rows.len(),
    ensures
        grid_count(rows.take(r + 1), target) == grid_count(rows.take(r), target) + row_count(
            rows[r],
            target,
        ),
{
    assert(rows.take(r + 1).drop_last() =~= rows.take(r));
}

/// How many cells of `maze` hold `target` (saturating at `usize::MAX`).
pub fn count_char(maze: &Maze, target: char) -> (count: usize)
    ensures
        count as int == (if grid_count(maze_rows(maze@), target) <= usize::MAX {
            grid_count(maze_rows(maze@), target) as int
        } else {
            usize::MAX as int
        }),
{
    let ghost rows = maze_rows(maze@);
    let mut total: usize = 0;
    let mut r: usize = 0;
    proof {
        assert(rows.take(0) =~= Seq::<Seq<char>>::empty());
    }
    while r < maze.len()
        invariant
            rows == maze_rows(maze@),
            r <= maze.len(),
            total as int == (if grid_count(rows.take(r as int), target) <= usize::MAX {
                grid_count(rows.take(r as int), target) as int
            } else {
                usize::MAX as int
            }),
        decreases maze.len() - r,
    {
        let row = &maze[r];
        let ghost before_row = grid_count(rows.take(r as int), target);
        let mut c: usize = 0;
        proof {
            assert(row@.take(0) =~= Seq::<char>::empty());
        }
        while c < row.len()
            invariant
                rows == maze_rows(maze@),
                r < maze.len(),
                row@ == rows[r as int],
                c <= row.len(),
                before_row == grid_count(rows.take(r as int), target),
                total as int == (if before_row + row_count(row@.take(c as int), target)
                    <= usize::MAX {
                    (before_row + row_count(row@.take(c as int), target)) as int
                } else {
                    usize::MAX as int
                }),
            decreases row.len() - c,
        {
            proof {
                lemma_row_count_take(row@, target, c as int);
            }
            if row[c] == target && total < usize::MAX {
                total = total + 1;
            }
            c = c + 1;
        }
        proof {
            assert(row@.take(row@.len() as int) =~= row@);
            lemma_grid_count_take(rows, target, r as int);
        }
        r = r + 1;
    }
    proof {
        assert(rows.take(maze@.len() as int) =~= rows);
    }
    total
}

/// Whether the outer ring of a rectangular maze is made of walls.
pub fn has_wall_borders(maze: &Maze) -> (walled: bool)
    requires
        is_rectangular(maze_rows(maze@)),
    ensures
        walled == walled_border(maze_rows(maze@)),
{
    let ghost rows = maze_rows(maze@);
    let height = maze.len();
    let width = maze[0].len();
    let top = &maze[0];
    let bottom = &maze[height - 1];
    assert(rows[0] == top@ && rows[height - 1] == bottom@);
    let mut c: usize = 0;
    while c < width
        invariant
            rows == maze_rows(maze@),
            is_rectangular(rows),
            width == rows[0].len(),
            height == rows.len(),
            top@ == rows[0],
            bottom@ == rows[height - 1],
            c <= width,
            forall|i: int| 0 <= i < c ==> wall_cell(#[trigger] rows[0][i]) && wall_cell(rows[height - 1][i]),
        decreases width - c,
    {
        if !is_wall(top[c]) || !is_wall(bottom[c]) {
            return false;
        }
        c = c + 1;
    }
    let mut r: usize = 0;
    while r < height
        invariant
            rows == maze_rows(maze@),
            is_rectangular(rows),
            width == rows[0].len(),
            height == rows.len(),
            r <= height,
            forall|i: int| 0 <= i < width ==> wall_cell(#[trigger] rows[0][i]) && wall_cell(rows[height - 1][i]),
            forall|i: int| 0 <= i < r ==> wall_cell(#[trigger] rows[i][0]) && wall_cell(rows[i][width - 1]),
        decreases height - r,
    {
        let row = &maze[r];
        assert(row@ == rows[r as int]);
        assert(row@.len() == width);
        if !is_wall(row[0]) || !is_wall(row[width - 1]) {
            return false;
        }
        r = r + 1;
    }
    assert(walled_border(rows));
    true
}

/// Whether `maze` is playable: rectangular, walled all around, with exactly
/// one start `p` and one goal `g`.
pub fn validate_maze(maze: &Maze) -> (valid: bool)
    ensures
        valid == valid_maze(maze_rows(maze@)),
{
    let ghost rows = maze_rows(maze@);
    if maze.len() == 0 {
        return false;
    }
    let mut r: usize = 0;
    while r < maze.len()
        invariant
            rows == maze_rows(maze@),
            r <= maze.len(),
            forall|i: int| 0 <= i < r ==> #[trigger] rows[i].len() > 0,
        decreases maze.len() - r,
    {
        if maze[r].len() == 0 {
            assert(rows[r as int].len() == 0);
            return false;
        }
        r = r + 1;
    }
    let width = maze[0].len();
    let mut r: usize = 0;
    while r < maze.len()
        invariant
            rows == maze_rows(maze@),
            r <= maze.len(),
            width == rows[0].len(),
            forall|i: int| 0 <= i < maze.len() ==> #[trigger] rows[i].len() > 0,
            forall|i: int| 0 <= i < r ==> #[trigger] rows[i].len() == width,
        decreases maze.len() - r,
    {
        if maze[r].len() != width {
            assert(rows[r as int].len() != width);
            return false;
        }
        r = r + 1;
    }
    assert(is_rectangular(rows));
    let player_count = count_char(maze, 'p');
    let goal_count = count_char(maze, 'g');
    player_count == 1 && goal_count == 1 && has_wall_borders(maze)
}

/// The column and row of the first cell holding `target`, reading rows top
/// to bottom and each row left to right; `None` when no cell holds it.
pub fn find_char(maze: &Maze, target: char) -> (found: Option<(usize, usize)>)
    ensures
        match found {
            Some((x, y)) => {
                &&& y < maze@.len()
                &&& x < maze@[y as int]@.len()
                &&& maze@[y as int]@[x as int] == target
                &&& forall|x2: int, y2: int|
                    0 <= y2 < maze@.len() && 0 <= x2 < maze@[y2]@.len() && reading_before(
                        x2,
                        y2,
                        x as int,
                        y as int,
                    ) ==> #[trigger] maze@[y2]@[x2] != target
            },
            None => forall|x2: int, y2: int|
                0 <= y2 < maze@.len() && 0 <= x2 < maze@[y2]@.len() ==> #[trigger] maze@[y2]@[x2]
                    != target,
        },
{
    let mut y: usize = 0;
    while y < maze.len()
        invariant
            y <= maze.len(),
            forall|x2: int, y2: int|
                0 <= y2 < y && 0 <= x2 < maze@[y2]@.len() ==> #[trigger] maze@[y2]@[x2] != target,
        decreases maze.len() - y,
    {
        let row = &maze[y];
        let mut x: usize = 0;
        while x < row.len()
            invariant
                y < maze.len(),
                row@ == maze@[y as int]@,
                x <= row.len(),
                forall|x2: int, y2: int|
                    0 <= y2 < y && 0 <= x2 < maze@[y2]@.len() ==> #[trigger] maze@[y2]@[x2] != target,
                forall|x2: int| 0 <= x2 < x ==> #[trigger] maze@[y as int]@[x2] != target,
            decreases row.len() - x,
        {
            if row[x] == target {
                return Some((x, y));
            }
            x = x + 1;
        }
        y = y + 1;
    }
    None
}

/// A row that counts a symbol holds it somewhere.
proof fn lemma_row_count_witness(row: Seq<char>, target: char)
    requires
        row_count(row, target) > 0,
    ensures
        exists|x: int| 0 <= x < row.len() && row[x] == target,
    decreases row.len(),
{
    if row.last() != target {
        lemma_row_count_witness(row.drop_last(), target);
        let x = choose|x: int| 0 <= x < row.drop_last().len() && row.drop_last()[x] == target;
        assert(row[x] == target);
    } else {
        assert(row[row.len() - 1] == target);
    }
}

/// A grid that counts a symbol holds it somewhere.
proof fn lemma_grid_count_witness(rows: Seq<Seq<char>>, target: char)
    requires
        grid_count(rows, target) > 0,
    ensures
        exists|x: int, y: int| 0 <= y < rows.len() && 0 <= x < rows[y].len() && #[trigger] rows[y][x] == target,
    decreases rows.len(),
{
    if row_count(rows.last(), target) > 0 {
        lemma_row_count_witness(rows.last(), target);
        let x = choose|x: int| 0 <= x < rows.last().len() && rows.last()[x] == target;
        assert(rows[rows.len() - 1][x] == target);
    } else {
        lemma_grid_count_witness(rows.drop_last(), target);
        let (x, y) = choose|x: int, y: int|
            0 <= y < rows.drop_last().len() && 0 <= x < rows.drop_last()[y].len()
                && #[trigger] rows.drop_last()[y][x] == target;
        assert(rows[y][x] == target);
    }
}

/// A playable maze has a start cell and a goal cell, so `find_char` finds
/// both in it.
pub proof fn lemma_valid_maze_has_start_and_goal(maze: Seq<Vec<char>>)
    requires
        valid_maze(maze_rows(maze)),
    ensures
        exists|x: int, y: int| 0 <= y < maze.len() && 0 <= x < maze[y]@.len() && #[trigger] maze[y]@[x] == 'p',
        exists|x: int, y: int| 0 <= y < maze.len() && 0 <= x < maze[y]@.len() && #[trigger] maze[y]@[x] == 'g',
{
    let rows = maze_rows(maze);
    lemma_grid_count_witness(rows, 'p');
    lemma_grid_count_witness(rows, 'g');
    let (px, py) = choose|x: int, y: int| 0 <= y < rows.len() && 0 <= x < rows[y].len() && #[trigger] rows[y][x] == 'p';
    assert(maze[py]@[px] == 'p');
    let (gx, gy) = choose|x: int, y: int| 0 <= y < rows.len() && 0 <= x < rows[y].len() && #[trigger] rows[y][x] == 'g';
    assert(maze[gy]@[gx] == 'g');
}

/// The start and goal cells (column, row) of `maze` when it is playable,
/// `None` when it is not.
pub fn playable_start_and_goal(maze: &Maze) -> (found: Option<((usize, usize), (usize, usize))>)
    ensures
        found is Some <==> valid_maze(maze_rows(maze@)),
        found matches Some((start, goal)) ==> {
            &&& start.1 < maze@.len() && start.0 < maze@[start.1 as int]@.len()
            &&& maze@[start.1 as int]@[start.0 as int] == 'p'
            &&& goal.1 < maze@.len() && goal.0 < maze@[goal.1 as int]@.len()
            &&& maze@[goal.1 as int]@[goal.0 as int] == 'g'
        },
{
    if !validate_maze(maze) {
        return None;
    }
    proof {
        lemma_valid_maze_has_start_and_goal(maze@);
    }
    match (find_char(maze, 'p'), find_char(maze, 'g')) {
        (Some(start), Some(goal)) => Some((start, goal)),
        _ => None,
    }
}

/// `line` without the `'\r'` that ends it, if one does.
pub open spec fn without_carriage_return(line: Seq<char>) -> Seq<char> {
    if line.len() > 0 && line.last() == '\r' {
        line.drop_last()
    } else {
        line
    }
}

/// Reading `text` line by line: the lines finished by a `'\n'` (each
/// without its `'\n'` and the `'\r'` before it) and the characters read
/// since the last `'\n'`.
pub open spec fn read_lines(text: Seq<char>) -> (Seq<Seq<char>>, Seq<char>)
    decreases text.len(),
{
    if text.len() == 0 {
        (Seq::empty(), Seq::empty())
    } else {
        let (done, current) = read_lines(text.drop_last());
        if text.last() == '\n' {
            (done.push(without_carriage_return(current)), Seq::empty())
        } else {
            (done, current.push(text.last()))
        }
    }
}

/// The lines of `text` as `BufRead::lines` gives them: split at each
/// `'\n'`, each line without its `"\n"` or `"\r\n"`, and a last line
/// without a `'\n'` kept as it is when it is not empty.
pub open spec fn text_lines(text: Seq<char>) -> Seq<Seq<char>> {
    let (done, current) = read_lines(text);
    if current.len() == 0 {
        done
    } else {
        done.push(current)
    }
}

/// The maze written in `text`: one row per line, one cell per character.
pub fn parse_maze(text: &str) -> (maze: Maze)
    ensures
        maze_rows(maze@) == text_lines(text@),
{
    let chars = crate::text::text_chars(text);
    let mut maze: Maze = Vec::new();
    let mut current: Vec<char> = Vec::new();
    let mut i: usize = 0;
    while i < chars.len()
        invariant
            chars@ == text@,
            i <= chars@.len(),
            (maze_rows(maze@), current@) == read_lines(text@.take(i as int)),
        decreases chars@.len() - i,
    {
        let c = chars[i];
        proof {
            assert(text@.take(i + 1).drop_last() =~= text@.take(i as int));
            assert(text@.take(i + 1).last() == c);
        }
        if c == '\n' {
            let mut line = current;
            let n = line.len();
            if n > 0 && line[n - 1] == '\r' {
                line.pop();
            }
            proof {
                assert(line@ == without_carriage_return(current@));
            }
            maze.push(line);
            current = Vec::new();
            proof {
                assert(maze_rows(maze@) =~= read_lines(text@.take(i + 1)).0);
            }
        } else {
            current.push(c);
        }
        i = i + 1;
    }
    proof {
        assert(text@.take(chars@.len() as int) =~= text@);
    }
    if current.len() > 0 {
        maze.push(current);
        proof {
            assert(maze_rows(maze@) =~= text_lines(text@));
        }
    }
    maze
}

/// A playable maze is a non-empty grid whose rows all have the width of the
/// first, not zero, and whose outer ring (first and last rows, first and
/// last columns) is made of walls; and a grid of that shape with exactly one
/// start and one goal is playable.
pub proof fn lemma_valid_maze_shape(rows: Seq<Seq<char>>)
    ensures
        valid_maze(rows) ==> {
            &&& rows.len() > 0 && rows[0].len() > 0
            &&& forall|r: int| 0 <= r < rows.len() ==> #[trigger] rows[r].len() == rows[0].len()
            &&& forall|c: int|
                0 <= c < rows[0].len() ==> wall_cell(#[trigger] rows[0][c]) && wall_cell(
                    rows[rows.len() - 1][c],
                )
            &&& forall|r: int|
                0 <= r < rows.len() ==> wall_cell(#[trigger] rows[r][0]) && wall_cell(
                    rows[r][rows[0].len() - 1],
                )
            &&& grid_count(rows, 'p') == 1 && grid_count(rows, 'g') == 1
        },
        ({
            &&& rows.len() > 0 && rows[0].len() > 0
            &&& forall|r: int| 0 <= r < rows.len() ==> #[trigger] rows[r].len() == rows[0].len()
            &&& forall|c: int|
                0 <= c < rows[0].len() ==> wall_cell(#[trigger] rows[0][c]) && wall_cell(
                    rows[rows.len() - 1][c],
                )
            &&& forall|r: int|
                0 <= r < rows.len() ==> wall_cell(#[trigger] rows[r][0]) && wall_cell(
                    rows[r][rows[0].len() - 1],
                )
            &&& grid_count(rows, 'p') == 1 && grid_count(rows, 'g') == 1
        }) ==> valid_maze(rows),
{
    if valid_maze(rows) {
        let h = rows.len() as int;
        let w = rows[0].len() as int;
        assert forall|c: int| 0 <= c < w implies wall_cell(#[trigger] rows[0][c]) && wall_cell(rows[h - 1][c]) by {}
        assert forall|r: int| 0 <= r < h implies wall_cell(#[trigger] rows[r][0]) && wall_cell(rows[r][w - 1]) by {}
    }
}

/// No row read from a text holds a line break.
pub proof fn lemma_text_lines_have_no_breaks(text: Seq<char>)
    ensures
        forall|r: int, c: int|
            0 <= r < text_lines(text).len() && 0 <= c < text_lines(text)[r].len() ==> #[trigger] text_lines(text)[r][c]
                != '\n',
{
    lemma_read_lines_have_no_breaks(text);
}

proof fn lemma_read_lines_have_no_breaks(text: Seq<char>)
    ensures
        forall|r: int, c: int|
            0 <= r < read_lines(text).0.len() && 0 <= c < read_lines(text).0[r].len() ==> #[trigger] read_lines(text).0[r][c]
                != '\n',
        forall|c: int| 0 <= c < read_lines(text).1.len() ==> #[trigger] read_lines(text).1[c] != '\n',
    decreases text.len(),
{
    if text.len() > 0 {
        lemma_read_lines_have_no_breaks(text.drop_last());
        let (done, current) = read_lines(text.drop_last());
        if text.last() == '\n' {
            let line = without_carriage_return(current);
            assert forall|c: int| 0 <= c < line.len() implies line[c] != '\n' by {
                assert(line[c] == current[c]);
            }
            let all = done.push(line);
            assert forall|r: int, c: int| 0 <= r < all.len() && 0 <= c < all[r].len() implies #[trigger] all[r][c] != '\n' by {
                if r < done.len() {
                    assert(all[r] == done[r]);
                }
            }
        } else {
            let cur = current.push(text.last());
            assert forall|c: int| 0 <= c < cur.len() implies #[trigger] cur[c] != '\n' by {
                if c < current.len() {
                    assert(cur[c] == current[c]);
                }
            }
        }
    }
}

} // verus!
