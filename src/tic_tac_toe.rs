//! A tic-tac-toe board with win and draw detection.
use itertools::Itertools;
use vstd::prelude::*;

verus! {

/// One of the two players: noughts (O) or crosses (X).
#[derive(Clone, Copy, Debug, PartialEq, Eq, Structural, Hash)]
pub enum Player {
    Nought,
    Cross,
}

pub open spec fn opponent(p: Player) -> Player {
    match p {
        Player::Nought => Player::Cross,
        Player::Cross => Player::Nought,
    }
}

pub open spec fn player_symbol(p: Player) -> char {
    match p {
        Player::Nought => 'O',
        Player::Cross => 'X',
    }
}

impl Player {
    /// The other player.
    pub fn toggle(self) -> (r: Player)
        ensures
            r == opponent(self),
    {
        match self {
            Player::Nought => Player::Cross,
            Player::Cross => Player::Nought,
        }
    }

    /// The player's symbol: "O" or "X".
    pub fn to_string(&self) -> (r: String)
        ensures
            r@ == seq![player_symbol(*self)],
    {
        match self {
            Player::Nought => {
                proof {
                    reveal_strlit("O");
                }
                String::from_str("O")
            },
            Player::Cross => {
                proof {
                    reveal_strlit("X");
                }
                String::from_str("X")
            },
        }
    }

    /// Reads a player from its symbol; any other text is refused.
    pub fn from_symbol(s: &str) -> (r: Result<Player, ParsePlayerError>)
        ensures
            r == Ok::<Player, ParsePlayerError>(Player::Nought) <==> s@ == seq!['O'],
            r == Ok::<Player, ParsePlayerError>(Player::Cross) <==> s@ == seq!['X'],
            r is Err <==> s@ != seq!['O'] && s@ != seq!['X'],
    {
        if s.unicode_len() == 1 {
            let c = s.get_char(0);
            if c == 'O' {
                assert(s@ =~= seq!['O']);
                return Ok(Player::Nought);
            } else if c == 'X' {
                assert(s@ =~= seq!['X']);
                return Ok(Player::Cross);
            }
        }
        Err(ParsePlayerError {  })
    }
}

impl std::str::FromStr for Player {
    type Err = ParsePlayerError;

    fn from_str(s: &str) -> Result<Player, ParsePlayerError> {
        Player::from_symbol(s)
    }
}

/// Text that names no player.
#[derive(Clone, Copy, Debug, PartialEq, Eq, Structural)]
pub struct ParsePlayerError {}

/// A square of the board: taken by a player, or vacant.
#[derive(Clone, Copy, Debug, PartialEq, Eq, Structural)]
pub enum Cell {
    Occupied(Player),
    Vacant,
}

pub open spec fn cell_symbol(c: Cell) -> char {
    match c {
        Cell::Occupied(p) => player_symbol(p),
        Cell::Vacant => ' ',
    }
}

impl Cell {
    pub fn is_occupied(self) -> (r: bool)
        ensures
            r == self is Occupied,
    {
        !self.is_vacant()
    }

    pub fn is_vacant(self) -> (r: bool)
        ensures
            r == self is Vacant,
    {
        match self {
            Cell::Occupied(_) => false,
            Cell::Vacant => true,
        }
    }

    /// The symbol of the player that holds the cell, or a space.
    pub fn to_string(&self) -> (r: String)
        ensures
            r@ == seq![cell_symbol(*self)],
    {
        match self {
            Cell::Occupied(player) => player.to_string(),
            Cell::Vacant => {
                proof {
                    reveal_strlit(" ");
                }
                String::from_str(" ")
            },
        }
    }
}

/// A position on the board, numbered 1 to 9 row by row:
///
/// ```text
/// 1 2 3
/// 4 5 6
/// 7 8 9
/// ```
#[derive(Clone, Copy, Debug, PartialEq, Eq, Structural)]
pub struct Pos {
    pos: usize,
}

impl Pos {
    #[verifier::type_invariant]
    spec fn inv(self) -> bool {
        1 <= self.pos <= 9
    }

    pub closed spec fn spec_get(self) -> usize {
        self.pos
    }

    pub fn new(pos: usize) -> (r: Option<Pos>)
        ensures
            r is Some <==> 1 <= pos <= 9,
            r matches Some(p) ==> p.spec_get() == pos,
    {
        if 1 <= pos && pos <= Board::SIZE {
            Some(Pos { pos })
        } else {
            None
        }
    }

    #[verifier::when_used_as_spec(spec_get)]
    pub fn get(self) -> (r: usize)
        ensures
            r == self.spec_get(),
            1 <= r <= 9,
    {
        proof {
            use_type_invariant(self);
        }
        self.pos
    }
}

pub open spec fn occupied_by_spec(line: Seq<Cell>, player: Player) -> bool {
    forall|k: int| 0 <= k < line.len() ==> #[trigger] line[k] == Cell::Occupied(player)
}

/// Row `i` (0 to 2) of a row-major board.
pub open spec fn row_line(cells: Seq<Cell>, i: int) -> Seq<Cell> {
    seq![cells[3 * i], cells[3 * i + 1], cells[3 * i + 2]]
}

/// Column `i` (0 to 2) of a row-major board.
pub open spec fn column_line(cells: Seq<Cell>, i: int) -> Seq<Cell> {
    seq![cells[i], cells[i + 3], cells[i + 6]]
}

/// The major diagonal (`i` = 0), from the top left, and the minor one
/// (`i` = 1), from the top right.
pub open spec fn diagonal_line(cells: Seq<Cell>, i: int) -> Seq<Cell> {
    if i == 0 {
        seq![cells[0], cells[4], cells[8]]
    } else {
        seq![cells[2], cells[4], cells[6]]
    }
}

/// `player` holds a whole row, column or diagonal.
pub open spec fn wins_spec(cells: Seq<Cell>, player: Player) -> bool {
    (exists|i: int| 0 <= i < 3 && occupied_by_spec(#[trigger] row_line(cells, i), player))
        || (exists|i: int| 0 <= i < 3 && occupied_by_spec(#[trigger] column_line(cells, i), player))
        || (exists|i: int| 0 <= i < 2 && occupied_by_spec(#[trigger] diagonal_line(cells, i), player))
}

pub open spec fn complete_spec(cells: Seq<Cell>) -> bool {
    forall|k: int| 0 <= k < cells.len() ==> #[trigger] cells[k] is Occupied
}

pub open spec fn draw_spec(cells: Seq<Cell>) -> bool {
    complete_spec(cells) && !wins_spec(cells, Player::Nought) && !wins_spec(cells, Player::Cross)
}

/// `parts` one after another, with `sep` between each two.
pub open spec fn join_spec(parts: Seq<Seq<char>>, sep: Seq<char>) -> Seq<char>
    decreases parts.len(),
{
    if parts.len() == 0 {
        Seq::empty()
    } else if parts.len() == 1 {
        parts[0]
    } else {
        join_spec(parts.drop_last(), sep) + sep + parts.last()
    }
}

pub open spec fn strings_view(parts: Vec<String>) -> Seq<Seq<char>> {
    parts@.map_values(|part: String| part@)
}

/// The line drawn above, between and below the rows.
pub open spec fn border_text() -> Seq<char> {
    seq!['+', '-', '-', '-', '+', '-', '-', '-', '+', '-', '-', '-', '+', '\n']
}

/// Row `i` as text: `| a | b | c |` and a line break.
pub open spec fn row_text(cells: Seq<Cell>, i: int) -> Seq<char> {
    seq![
        '|', ' ', cell_symbol(cells[3 * i]), ' ',
        '|', ' ', cell_symbol(cells[3 * i + 1]), ' ',
        '|', ' ', cell_symbol(cells[3 * i + 2]), ' ',
        '|', '\n',
    ]
}

/// The border, then the first `n` rows, each followed by the border.
pub open spec fn render_rows(cells: Seq<Cell>, n: int) -> Seq<char>
    decreases n,
{
    if n <= 0 {
        border_text()
    } else {
        render_rows(cells, n - 1) + row_text(cells, n - 1) + border_text()
    }
}

pub open spec fn render_spec(cells: Seq<Cell>) -> Seq<char> {
    render_rows(cells, 3)
}

proof fn lemma_join_three(parts: Seq<Seq<char>>, sep: Seq<char>)
    requires
        parts.len() == 3,
    ensures
        join_spec(parts, sep) == parts[0] + sep + parts[1] + sep + parts[2],
{
    reveal_with_fuel(join_spec, 3);
    assert(parts.drop_last().drop_last() =~= seq![parts[0]]);
}

/// Relies on itertools' `Itertools::format`: it writes the items one after
/// another, with `sep` between each two.
#[verifier::external_body]
fn join_with(parts: &Vec<String>, sep: &str) -> (r: String)
    ensures
        r@ == join_spec(strings_view(*parts), sep@),
{
    format!("{}", parts.iter().format(sep))
}

pub open spec fn lines_view(lines: Vec<Vec<Cell>>) -> Seq<Seq<Cell>> {
    lines@.map_values(|line: Vec<Cell>| line@)
}

/// A 3x3 board, cells in row-major order.
pub struct Board {
    pub cells: [Cell; 9],
}

impl Board {
    pub const WIDTH: usize = 3;

    pub const SIZE: usize = 9;

    pub fn new() -> (r: Board)
        ensures
            forall|k: int| 0 <= k < 9 ==> #[trigger] r.cells[k] == Cell::Vacant,
    {
        Board { cells: [Cell::Vacant; 9] }
    }

    /// Puts `player` on a vacant cell; an occupied cell is left as it is and
    /// reported with its holder.
    pub fn place(&mut self, pos: Pos, player: Player) -> (r: Result<(), PlaceError>)
        ensures
            match old(self).cells[pos.spec_get() - 1] {
                Cell::Occupied(holder) => r == Err::<(), PlaceError>(PlaceError { pos, occupied_by: holder })
                    && final(self).cells == old(self).cells,
                Cell::Vacant => r is Ok && final(self).cells@ == old(self).cells@.update(
                    pos.spec_get() - 1,
                    Cell::Occupied(player),
                ),
            },
    {
        let idx = pos.get() - 1;
        match self.cells[idx] {
            Cell::Occupied(holder) => Err(PlaceError { pos, occupied_by: holder }),
            Cell::Vacant => {
                self.cells[idx] = Cell::Occupied(player);
                Ok(())
            },
        }
    }

    /// The board as text: rows between borders, each cell in its own box.
    pub fn to_string(&self) -> (r: String)
        ensures
            r@ == render_spec(self.cells@),
    {
        let border = border_line();
        let mut out = String::new();
        out.append(border.as_str());
        let rows = self.rows();
        let mut i: usize = 0;
        while i < Board::WIDTH
            invariant
                i <= 3,
                rows.len() == 3,
                forall|k: int| 0 <= k < 3 ==> #[trigger] lines_view(rows)[k] == row_line(self.cells@, k),
                border@ == border_text(),
                out@ == render_rows(self.cells@, i as int),
            decreases 3 - i,
        {
            let row = &rows[i];
            assert(row@ == lines_view(rows)[i as int]);
            let mut symbols: Vec<String> = Vec::new();
            let mut j: usize = 0;
            while j < row.len()
                invariant
                    row@ == row_line(self.cells@, i as int),
                    j <= row.len(),
                    symbols.len() == j,
                    forall|k: int| 0 <= k < j ==> #[trigger] strings_view(symbols)[k] == seq![cell_symbol(row@[k])],
                decreases row.len() - j,
            {
                let symbol = row[j].to_string();
                let ghost prev = symbols;
                symbols.push(symbol);
                assert(strings_view(symbols) =~= strings_view(prev).push(symbol@));
                j = j + 1;
            }
            let joined = join_with(&symbols, " | ");
            proof {
                reveal_strlit(" | ");
                lemma_join_three(strings_view(symbols), " | "@);
                reveal_strlit("| ");
                reveal_strlit(" |\n");
            }
            out.append("| ");
            out.append(joined.as_str());
            out.append(" |\n");
            out.append(border.as_str());
            assert(out@ =~= render_rows(self.cells@, i + 1));
            i = i + 1;
        }
        out
    }

    /// `player` holds a whole row, column or diagonal.
    pub fn wins(&self, player: Player) -> (r: bool)
        ensures
            r == wins_spec(self.cells@, player),
    {
        let rows = self.rows();
        let columns = self.columns();
        let diagonals = self.diagonals();
        let in_row = any_occupied_by(&rows, player);
        let in_column = any_occupied_by(&columns, player);
        let in_diagonal = any_occupied_by(&diagonals, player);
        proof {
            let cells = self.cells@;
            if in_row {
                let i = choose|i: int| 0 <= i < rows.len() && occupied_by_spec(#[trigger] lines_view(rows)[i], player);
                assert(occupied_by_spec(row_line(cells, i), player));
            }
            if in_column {
                let i = choose|i: int| 0 <= i < columns.len() && occupied_by_spec(#[trigger] lines_view(columns)[i], player);
                assert(occupied_by_spec(column_line(cells, i), player));
            }
            if in_diagonal {
                let i = choose|i: int| 0 <= i < diagonals.len() && occupied_by_spec(#[trigger] lines_view(diagonals)[i], player);
                assert(occupied_by_spec(diagonal_line(cells, i), player));
            }
            if exists|i: int| 0 <= i < 3 && occupied_by_spec(#[trigger] row_line(cells, i), player) {
                let i = choose|i: int| 0 <= i < 3 && occupied_by_spec(#[trigger] row_line(cells, i), player);
                assert(occupied_by_spec(lines_view(rows)[i], player));
            }
            if exists|i: int| 0 <= i < 3 && occupied_by_spec(#[trigger] column_line(cells, i), player) {
                let i = choose|i: int| 0 <= i < 3 && occupied_by_spec(#[trigger] column_line(cells, i), player);
                assert(occupied_by_spec(lines_view(columns)[i], player));
            }
            if exists|i: int| 0 <= i < 2 && occupied_by_spec(#[trigger] diagonal_line(cells, i), player) {
                let i = choose|i: int| 0 <= i < 2 && occupied_by_spec(#[trigger] diagonal_line(cells, i), player);
                assert(occupied_by_spec(lines_view(diagonals)[i], player));
            }
        }
        in_row || in_column || in_diagonal
    }

    /// Every cell is taken and neither player has won.
    pub fn is_draw(&self) -> (r: bool)
        ensures
            r == draw_spec(self.cells@),
    {
        self.is_complete() && !self.wins(Player::Nought) && !self.wins(Player::Cross)
    }

    /// The three rows, top to bottom, each left to right.
    pub fn rows(&self) -> (r: Vec<Vec<Cell>>)
        ensures
            r.len() == 3,
            forall|i: int| 0 <= i < 3 ==> #[trigger] lines_view(r)[i] == row_line(self.cells@, i),
    {
        let mut rows: Vec<Vec<Cell>> = Vec::new();
        let mut i: usize = 0;
        while i < Board::WIDTH
            invariant
                i <= 3,
                rows.len() == i,
                forall|k: int| 0 <= k < i ==> #[trigger] lines_view(rows)[k] == row_line(self.cells@, k),
            decreases 3 - i,
        {
            let mut row: Vec<Cell> = Vec::new();
            let mut j: usize = 0;
            while j < Board::WIDTH
                invariant
                    i < 3,
                    j <= 3,
                    row@ == row_line(self.cells@, i as int).take(j as int),
                decreases 3 - j,
            {
                row.push(self.cells[Board::WIDTH * i + j]);
                j = j + 1;
            }
            assert(row@ =~= row_line(self.cells@, i as int));
            let ghost prev = rows;
            rows.push(row);
            assert(lines_view(rows) =~= lines_view(prev).push(row_line(self.cells@, i as int)));
            i = i + 1;
        }
        rows
    }

    /// The three columns, left to right, each top to bottom.
    pub fn columns(&self) -> (r: Vec<Vec<Cell>>)
        ensures
            r.len() == 3,
            forall|i: int| 0 <= i < 3 ==> #[trigger] lines_view(r)[i] == column_line(self.cells@, i),
    {
        let mut columns: Vec<Vec<Cell>> = Vec::new();
        let mut i: usize = 0;
        while i < Board::WIDTH
            invariant
                i <= 3,
                columns.len() == i,
                forall|k: int| 0 <= k < i ==> #[trigger] lines_view(columns)[k] == column_line(self.cells@, k),
            decreases 3 - i,
        {
            let mut column: Vec<Cell> = Vec::new();
            let mut j: usize = 0;
            while j < Board::WIDTH
                invariant
                    i < 3,
                    j <= 3,
                    column@ == column_line(self.cells@, i as int).take(j as int),
                decreases 3 - j,
            {
                column.push(self.cells[i + Board::WIDTH * j]);
                j = j + 1;
            }
            assert(column@ =~= column_line(self.cells@, i as int));
            let ghost prev = columns;
            columns.push(column);
            assert(lines_view(columns) =~= lines_view(prev).push(column_line(self.cells@, i as int)));
            i = i + 1;
        }
        columns
    }

    /// The major diagonal, from the top left, then the minor one, from the
    /// top right; each top to bottom.
    pub fn diagonals(&self) -> (r: Vec<Vec<Cell>>)
        ensures
            r.len() == 2,
            forall|i: int| 0 <= i < 2 ==> #[trigger] lines_view(r)[i] == diagonal_line(self.cells@, i),
    {
        let mut major: Vec<Cell> = Vec::new();
        let mut minor: Vec<Cell> = Vec::new();
        let mut j: usize = 0;
        let mut on_major: usize = 0;
        let mut on_minor: usize = Board::WIDTH - 1;
        while j < Board::WIDTH
            invariant
                j <= 3,
                on_major == 4 * j,
                on_minor == 2 * j + 2,
                major@ == diagonal_line(self.cells@, 0).take(j as int),
                minor@ == diagonal_line(self.cells@, 1).take(j as int),
            decreases 3 - j,
        {
            major.push(self.cells[on_major]);
            minor.push(self.cells[on_minor]);
            on_major = on_major + Board::WIDTH + 1;
            on_minor = on_minor + Board::WIDTH - 1;
            j = j + 1;
        }
        assert(major@ =~= diagonal_line(self.cells@, 0));
        assert(minor@ =~= diagonal_line(self.cells@, 1));
        let mut diagonals: Vec<Vec<Cell>> = Vec::new();
        diagonals.push(major);
        diagonals.push(minor);
        diagonals
    }

    /// No cell is vacant.
    pub fn is_complete(&self) -> (r: bool)
        ensures
            r == complete_spec(self.cells@),
    {
        let mut k: usize = 0;
        while k < Board::SIZE
            invariant
                k <= 9,
                forall|m: int| 0 <= m < k ==> #[trigger] self.cells@[m] is Occupied,
            decreases 9 - k,
        {
            if !self.cells[k].is_occupied() {
                return false;
            }
            k = k + 1;
        }
        true
    }
}

/// The border line `+---+---+---+` with its line break.
fn border_line() -> (r: String)
    ensures
        r@ == border_text(),
{
    let mut dashes: Vec<String> = Vec::new();
    let mut j: usize = 0;
    while j < Board::WIDTH
        invariant
            j <= 3,
            dashes.len() == j,
            forall|k: int| 0 <= k < j ==> #[trigger] strings_view(dashes)[k] == "---"@,
        decreases 3 - j,
    {
        let ghost prev = dashes;
        dashes.push(String::from_str("---"));
        assert(strings_view(dashes) =~= strings_view(prev).push("---"@));
        j = j + 1;
    }
    let joined = join_with(&dashes, "+");
    proof {
        reveal_strlit("---");
        reveal_strlit("+");
        reveal_strlit("+\n");
        lemma_join_three(strings_view(dashes), "+"@);
    }
    let mut out = String::from_str("+");
    out.append(joined.as_str());
    out.append("+\n");
    assert(out@ =~= border_text());
    out
}

/// Every cell of `cells` is held by `player`.
fn occupied_by(cells: &Vec<Cell>, player: Player) -> (r: bool)
    ensures
        r == occupied_by_spec(cells@, player),
{
    let mut k: usize = 0;
    while k < cells.len()
        invariant
            k <= cells.len(),
            forall|m: int| 0 <= m < k ==> #[trigger] cells@[m] == Cell::Occupied(player),
        decreases cells.len() - k,
    {
        if cells[k] != Cell::Occupied(player) {
            return false;
        }
        k = k + 1;
    }
    true
}

/// Some line of `lines` is held entirely by `player`.
fn any_occupied_by(lines: &Vec<Vec<Cell>>, player: Player) -> (r: bool)
    ensures
        r == exists|i: int| 0 <= i < lines.len() && occupied_by_spec(#[trigger] lines_view(*lines)[i], player),
{
    let mut i: usize = 0;
    while i < lines.len()
        invariant
            i <= lines.len(),
            forall|k: int| 0 <= k < i ==> !occupied_by_spec(#[trigger] lines_view(*lines)[k], player),
        decreases lines.len() - i,
    {
        if occupied_by(&lines[i], player) {
            assert(lines_view(*lines)[i as int] == lines[i as int]@);
            return true;
        }
        i = i + 1;
    }
    false
}

/// A move onto a cell that is already taken.
#[derive(Debug, PartialEq, Eq, Structural)]
pub struct PlaceError {
    pub pos: Pos,
    pub occupied_by: Player,
}

} // verus!
