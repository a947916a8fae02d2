//! The game's state: the snake on the board, the reward, the score and the
//! status, and how one tick of the game changes them.
use vstd::prelude::*;
use vstd::set_lib::lemma_int_range;
use vstd::set_lib::lemma_len_subset;
use vstd::set_lib::set_int_range;
use crate::grid::Direction;
use crate::grid::next_index;
use crate::grid::col_of;
use crate::grid::index_of;
use crate::grid::lemma_cell_index_round_trip;
use crate::grid::lemma_index_cell_round_trip;
use crate::grid::lemma_next_index_cases;
use crate::grid::row_of;
use crate::random::RandomSource;

verus! {

/// The status of a game that has started.
#[derive(PartialEq, Eq, Structural, Clone, Copy, Debug)]
pub enum GameStatus {
    Won,
    Lost,
    Played,
}

/// One cell of the snake's body, by its index on the board.
#[derive(PartialEq, Eq, Structural, Clone, Copy, Debug)]
pub struct SnakeCell(pub usize);

/// The indices of the cells of `body`, in order.
pub open spec fn cell_indices(body: Seq<SnakeCell>) -> Seq<usize> {
    body.map_values(|c: SnakeCell| c.0)
}

/// The snake: its cells, head first, and its heading.
pub struct Snake {
    body: Vec<SnakeCell>,
    direction: Direction,
}

impl Snake {
    /// The indices of the snake's cells, head first.
    pub closed spec fn cells(&self) -> Seq<usize> {
        cell_indices(self.body@)
    }

    /// The snake's heading.
    pub closed spec fn heading(&self) -> Direction {
        self.direction
    }

    /// A snake of `size` cells heading right, its head at `spawn_index` and
    /// each further cell one index lower than the one before.
    pub fn new(spawn_index: usize, size: usize) -> (s: Snake)
        requires
            size <= spawn_index + 1,
        ensures
            s.cells() == Seq::new(size as nat, |i: int| (spawn_index - i) as usize),
            s.heading() == Direction::Right,
    {
        let mut body: Vec<SnakeCell> = Vec::new();
        let mut i: usize = 0;
        while i < size
            invariant
                i <= size,
                size <= spawn_index + 1,
                body@.len() == i,
                forall|j: int| 0 <= j < i ==> #[trigger] body@[j] == SnakeCell((spawn_index - j) as usize),
            decreases size - i,
        {
            body.push(SnakeCell(spawn_index - i));
            i += 1;
        }
        assert(cell_indices(body@) =~= Seq::new(size as nat, |i: int| (spawn_index - i) as usize));
        Snake { body, direction: Direction::Right }
    }
}

/// What a game holds, as plain values.
pub struct WorldView {
    pub width: int,
    pub size: int,
    /// The snake's cells, head first.
    pub body: Seq<usize>,
    pub direction: Direction,
    /// The head's next cell, when a change of direction has chosen it.
    pub next_cell: Option<usize>,
    pub reward_cell: Option<usize>,
    /// `None` until the game starts.
    pub status: Option<GameStatus>,
    pub points: int,
}

/// A game of snake on a square board whose edges wrap around.
pub struct World<R> {
    width: usize,
    size: usize,
    snake: Snake,
    next_cell: Option<SnakeCell>,
    reward_cell: Option<usize>,
    status: Option<GameStatus>,
    points: usize,
    rng: R,
}

impl<R> View for World<R> {
    type V = WorldView;

    closed spec fn view(&self) -> WorldView {
        WorldView {
            width: self.width as int,
            size: self.size as int,
            body: self.snake.cells(),
            direction: self.snake.direction,
            next_cell: match self.next_cell {
                Some(c) => Some(c.0),
                None => None,
            },
            reward_cell: self.reward_cell,
            status: self.status,
            points: self.points as int,
        }
    }
}

/// `cell` is one of the cells of `body` from position `start` on.
pub open spec fn occupies_from(body: Seq<usize>, start: int, cell: usize) -> bool {
    exists|j: int| start <= j < body.len() && body[j] == cell
}

/// Whether `cell` is one of the cells of `body` from position `start` on.
fn contains_from(body: &Vec<SnakeCell>, start: usize, cell: usize) -> (r: bool)
    ensures
        r == occupies_from(cell_indices(body@), start as int, cell),
{
    let mut i: usize = start;
    while i < body.len()
        invariant
            start <= i || body@.len() <= i,
            forall|j: int| start <= j < i && j < body@.len() ==> body@[j].0 != cell,
        decreases body.len() - i,
    {
        if body[i].0 == cell {
            assert(cell_indices(body@)[i as int] == cell);
            return true;
        }
        i += 1;
    }
    false
}

/// The cell that the head moves to on the next tick of a game in state `v`:
/// the one a change of heading chose, else the next one in the heading.
pub open spec fn next_head(v: WorldView) -> usize {
    match v.next_cell {
        Some(c) => c,
        None => next_index(v.width, v.body[0] as int, v.direction) as usize,
    }
}

/// `body` after its head has moved to `head` and every other cell into the
/// place of the one ahead of it.
pub open spec fn moved_body(body: Seq<usize>, head: usize) -> Seq<usize> {
    Seq::new(body.len(), |i: int| if i == 0 { head } else { body[i - 1] })
}

/// One tick, from `o` to `n`, of a game that is being played.
///
/// The snake moves. If its head then lies on another of its cells, the game
/// is lost and nothing else happens. Else, if the head lies on the reward,
/// the snake grows by a copy of its second cell and, while the board has
/// room, the score rises by one and the reward goes to a cell the snake
/// leaves free; on a full board the reward goes and the game is won.
pub open spec fn played_tick(o: WorldView, n: WorldView) -> bool {
    let head = next_head(o);
    let body = moved_body(o.body, head);
    &&& n.width == o.width
    &&& n.size == o.size
    &&& n.direction == o.direction
    &&& n.next_cell is None
    &&& if occupies_from(body, 1, head) {
        &&& n.status == Some(GameStatus::Lost)
        &&& n.body == body
        &&& n.reward_cell == o.reward_cell
        &&& n.points == o.points
    } else if o.reward_cell == Some(head) {
        &&& n.body == body.push(body[1])
        &&& if o.body.len() < o.size {
            &&& n.status == o.status
            &&& n.points == o.points + 1
            &&& n.reward_cell matches Some(c) && c < n.size && !n.body.contains(c)
        } else {
            &&& n.status == Some(GameStatus::Won)
            &&& n.points == o.points
            &&& n.reward_cell is None
        }
    } else {
        &&& n.body == body
        &&& n.status == o.status
        &&& n.points == o.points
        &&& n.reward_cell == o.reward_cell
    }
}

/// The state after a change of heading to `d`: the move in `d` becomes the
/// head's next cell, unless it would turn the head back onto the cell behind
/// it, in which case nothing changes.
pub open spec fn turned(o: WorldView, d: Direction) -> WorldView {
    let cell = next_index(o.width, o.body[0] as int, d);
    if cell == o.body[1] {
        o
    } else {
        WorldView { next_cell: Some(cell as usize), direction: d, ..o }
    }
}

/// The text that names a status.
pub open spec fn status_text(status: Option<GameStatus>) -> Seq<char> {
    match status {
        Some(GameStatus::Won) => "Won"@,
        Some(GameStatus::Lost) => "Lost"@,
        Some(GameStatus::Played) => "Playing..."@,
        None => "No status"@,
    }
}

/// Moves the head of `body` to `head` and every other cell into the place of
/// the one ahead of it.
fn shift_body(body: &mut Vec<SnakeCell>, head: SnakeCell)
    requires
        old(body)@.len() >= 1,
    ensures
        cell_indices(final(body)@) == moved_body(cell_indices(old(body)@), head.0),
{
    let len = body.len();
    let ghost before = body@;
    let mut i: usize = len - 1;
    while i > 0
        invariant
            body@.len() == len,
            i < len,
            forall|j: int| 0 <= j <= i ==> body@[j] == before[j],
            forall|j: int| i < j < len ==> body@[j] == before[j - 1],
        decreases i,
    {
        let prev = body[i - 1];
        body.set(i, prev);
        i -= 1;
    }
    body.set(0, head);
    assert(cell_indices(body@) =~= moved_body(cell_indices(before), head.0));
}

/// A body of fewer cells than a board of `max` cells leaves one of them free.
proof fn lemma_free_cell_exists(body: Seq<usize>, max: usize)
    requires
        body.len() < max,
    ensures
        exists|c: usize| c < max && !body.contains(c),
{
    if forall|c: usize| c < max ==> body.contains(c) {
        let ints = body.map_values(|c: usize| c as int);
        let taken = ints.to_set();
        assert forall|i: int| set_int_range(0, max as int).contains(i) implies taken.contains(i) by {
            let c = i as usize;
            assert(body.contains(c));
            let j = choose|j: int| 0 <= j < body.len() && body[j] == c;
            assert(ints[j] == i);
        }
        lemma_int_range(0, max as int);
        ints.lemma_cardinality_of_set();
        lemma_len_subset(set_int_range(0, max as int), taken);
    }
}

impl<R: RandomSource> World<R> {
    /// The state that every operation keeps: the board's size is the square
    /// of its width, the snake has at least three cells, all on the board,
    /// every cell the game names is on the board, and the score is at most
    /// the number of cells the snake has grown by.
    pub open spec fn wf(&self) -> bool {
        let v = self@;
        &&& 0 < v.width
        &&& v.size == v.width * v.width
        &&& 3 <= v.body.len()
        &&& forall|i: int| 0 <= i < v.body.len() ==> v.body[i] < v.size
        &&& (v.next_cell matches Some(c) ==> c < v.size)
        &&& (v.reward_cell matches Some(c) ==> c < v.size)
        &&& 0 <= v.points
        &&& v.points + 3 <= v.body.len()
    }

    /// A cell of the board `max` cells large that `snake_body` leaves free,
    /// or `None` when there is none.
    ///
    /// Draws indices from `rng` and keeps the first free one. After `max`
    /// draws that all hit the snake, it draws once more among the free cells
    /// themselves, so that the choice stays uniform and the call ends however
    /// full the board is.
    pub fn generate_reward_cell(max: usize, snake_body: &Vec<SnakeCell>, rng: &mut R) -> (r:
        Option<usize>)
        ensures
            r matches Some(c) ==> c < max && !cell_indices(snake_body@).contains(c),
            r is None <==> forall|c: usize| c < max ==> cell_indices(snake_body@).contains(c),
    {
        let ghost cells = cell_indices(snake_body@);
        let mut attempts: usize = 0;
        while attempts < max
            invariant
                attempts <= max,
                cells == cell_indices(snake_body@),
            decreases max - attempts,
        {
            let candidate = rng.random_below(max);
            if !contains_from(snake_body, 0, candidate) {
                assert(!cells.contains(candidate));
                return Some(candidate);
            }
            attempts += 1;
        }
        let mut free: Vec<usize> = Vec::new();
        let mut c: usize = 0;
        while c < max
            invariant
                c <= max,
                cells == cell_indices(snake_body@),
                forall|j: int| 0 <= j < free@.len() ==> free@[j] < max && !cells.contains(#[trigger] free@[j]),
                forall|x: usize| x < c && !cells.contains(x) ==> free@.contains(x),
            decreases max - c,
        {
            let ghost before = free@;
            if !contains_from(snake_body, 0, c) {
                free.push(c);
                assert forall|x: usize| x < c + 1 && !cells.contains(x) implies free@.contains(x) by {
                    if x < c {
                        let j = choose|j: int| 0 <= j < before.len() && before[j] == x;
                        assert(free@[j] == x);
                    } else {
                        assert(free@[free@.len() - 1] == x);
                    }
                }
            } else {
                assert(cells.contains(c));
            }
            c += 1;
        }
        if free.len() == 0 {
            return None;
        }
        let k = rng.random_below(free.len());
        assert(!cells.contains(free@[k as int]));
        Some(free[k])
    }

    /// A game on a board `width` cells wide, with a snake of three cells
    /// whose head is at `spawn_index`, heading right, and a reward on a free
    /// cell. The game has not started.
    pub fn new(width: usize, spawn_index: usize, rng: R) -> (w: World<R>)
        requires
            2 <= spawn_index < width * width,
            width * width <= usize::MAX,
        ensures
            w.wf(),
            w@.width == width,
            w@.size == width * width,
            w@.body == seq![spawn_index, (spawn_index - 1) as usize, (spawn_index - 2) as usize],
            w@.direction == Direction::Right,
            w@.next_cell is None,
            w@.status is None,
            w@.points == 0,
            w@.reward_cell matches Some(c) && c < w@.size && !w@.body.contains(c),
    {
        let mut rng = rng;
        let snake = Snake::new(spawn_index, 3);
        let size = width * width;
        assert(snake.cells() =~= seq![spawn_index, (spawn_index - 1) as usize, (spawn_index - 2) as usize]);
        assert(width >= 2) by (nonlinear_arith)
            requires
                2 <= spawn_index < width * width,
        ;
        assert(size >= 4) by (nonlinear_arith)
            requires
                width >= 2,
                size == width * width,
        ;
        proof {
            lemma_free_cell_exists(snake.cells(), size);
        }
        let reward_cell = Self::generate_reward_cell(size, &snake.body, &mut rng);
        World {
            width,
            size,
            snake,
            next_cell: None,
            reward_cell,
            status: None,
            points: 0,
            rng,
        }
    }
    /// The width of the board, in cells.
    pub fn width(&self) -> (r: usize)
        ensures
            r == self@.width,
    {
        self.width
    }

    /// The row and the column of cell `index`.
    pub fn index_to_cell(&self, index: usize) -> (r: (usize, usize))
        requires
            self.wf(),
            index < self@.size,
        ensures
            r.0 == row_of(self@.width, index as int),
            r.1 == col_of(self@.width, index as int),
            r.0 < self@.width,
            r.1 < self@.width,
    {
        proof {
            lemma_index_cell_round_trip(self.width as int, index as int);
        }
        (index / self.width, index % self.width)
    }

    /// The index of the cell in row `row` and column `col`.
    pub fn cell_to_index(&self, row: usize, col: usize) -> (r: usize)
        requires
            self.wf(),
            row < self@.width,
            col < self@.width,
        ensures
            r == index_of(self@.width, row as int, col as int),
            r < self@.size,
    {
        proof {
            lemma_cell_index_round_trip(self.width as int, row as int, col as int);
        }
        row * self.width + col
    }

    /// The score: how many rewards the snake has eaten.
    pub fn points(&self) -> (r: usize)
        ensures
            r == self@.points,
    {
        self.points
    }

    /// The cell that holds the reward, if any.
    pub fn reward_cell(&self) -> (r: Option<usize>)
        ensures
            r == self@.reward_cell,
    {
        self.reward_cell
    }

    /// The number of cells on the board.
    pub fn size(&self) -> (r: usize)
        ensures
            r == self@.size,
    {
        self.size
    }

    /// The cell of the snake's head.
    pub fn snake_head(&self) -> (r: usize)
        requires
            self.wf(),
        ensures
            r == self@.body[0],
    {
        self.snake.body[0].0
    }

    /// Starts a game that has not started yet; a game that has started,
    /// ended or not, stays as it is.
    pub fn start_game(&mut self)
        ensures
            final(self)@ == (if old(self)@.status is None {
                WorldView { status: Some(GameStatus::Played), ..old(self)@ }
            } else {
                old(self)@
            }),
            final(self).wf() == old(self).wf(),
    {
        if self.status.is_none() {
            self.status = Some(GameStatus::Played);
        }
    }

    /// The game's status; `None` before it starts.
    pub fn game_status(&self) -> (r: Option<GameStatus>)
        ensures
            r == self@.status,
    {
        self.status
    }

    /// The game's status in words.
    pub fn game_status_text(&self) -> (r: String)
        ensures
            r@ == status_text(self@.status),
    {
        match self.status {
            Some(GameStatus::Won) => "Won".to_owned(),
            Some(GameStatus::Lost) => "Lost".to_owned(),
            Some(GameStatus::Played) => "Playing...".to_owned(),
            None => "No status".to_owned(),
        }
    }

    /// The cell that one move in `direction` takes the head to.
    fn generate_next_snake_cell(&self, direction: Direction) -> (r: SnakeCell)
        requires
            self.wf(),
        ensures
            r.0 == next_index(self@.width, self@.body[0] as int, direction),
            r.0 < self@.size,
    {
        let snake_index = self.snake.body[0].0;
        let width = self.width;
        let size = self.size;
        proof {
            assert(self@.body[0] == snake_index);
            lemma_next_index_cases(width as int, snake_index as int, direction);
            assert(width <= size) by (nonlinear_arith)
                requires
                    0 < width,
                    size == width * width,
            ;
        }
        let col = snake_index % width;
        match direction {
            Direction::Right => if col + 1 == width {
                SnakeCell(snake_index - col)
            } else {
                SnakeCell(snake_index + 1)
            },
            Direction::Left => if col == 0 {
                SnakeCell(snake_index + (width - 1))
            } else {
                SnakeCell(snake_index - 1)
            },
            Direction::Up => if snake_index < width {
                SnakeCell(snake_index + (size - width))
            } else {
                SnakeCell(snake_index - width)
            },
            Direction::Down => if snake_index >= size - width {
                SnakeCell(snake_index - (size - width))
            } else {
                SnakeCell(snake_index + width)
            },
        }
    }

    /// Turns the snake to `direction`, to take effect on the next tick,
    /// unless the turn would send the head back onto the cell behind it.
    pub fn change_snake_direction(&mut self, direction: Direction)
        requires
            old(self).wf(),
        ensures
            final(self).wf(),
            final(self)@ == turned(old(self)@, direction),
    {
        let next_cell = self.generate_next_snake_cell(direction);
        if self.snake.body[1].0 == next_cell.0 {
            return;
        }
        self.next_cell = Some(next_cell);
        self.snake.direction = direction;
    }

    /// The number of cells of the snake.
    pub fn snake_length(&self) -> (r: usize)
        ensures
            r == self@.body.len(),
    {
        self.snake.body.len()
    }

    /// The snake's cells, head first.
    pub fn snake_cells(&self) -> (r: Vec<usize>)
        ensures
            r@ == self@.body,
    {
        let mut cells: Vec<usize> = Vec::new();
        let mut i: usize = 0;
        while i < self.snake.body.len()
            invariant
                i <= self.snake.body@.len(),
                cells@ == self@.body.subrange(0, i as int),
            decreases self.snake.body.len() - i,
        {
            cells.push(self.snake.body[i].0);
            i += 1;
            assert(cells@ =~= self@.body.subrange(0, i as int));
        }
        assert(cells@ =~= self@.body);
        cells
    }

    /// One tick of the game: while it is being played, the snake moves and
    /// the game settles what that move leads to; otherwise nothing happens.
    pub fn step(&mut self)
        requires
            old(self).wf(),
        ensures
            final(self).wf(),
            old(self)@.status != Some(GameStatus::Played) ==> final(self)@ == old(self)@,
            old(self)@.status == Some(GameStatus::Played) ==> played_tick(old(self)@, final(self)@),
    {
        match self.status {
            Some(GameStatus::Played) => {},
            _ => return ,
        }
        let ghost o = self@;
        let head = match self.next_cell {
            Some(cell) => {
                self.next_cell = None;
                cell
            },
            None => self.generate_next_snake_cell(self.snake.direction),
        };
        shift_body(&mut self.snake.body, head);
        let ghost moved = moved_body(o.body, head.0);
        assert(self@.body == moved);
        assert(forall|i: int| 0 <= i < moved.len() ==> moved[i] < o.size);
        if contains_from(&self.snake.body, 1, head.0) {
            self.status = Some(GameStatus::Lost);
            return ;
        }
        let eats = match self.reward_cell {
            Some(cell) => cell == head.0,
            None => false,
        };
        if eats {
            if self.snake.body.len() < self.size {
                self.points = self.points + 1;
                proof {
                    lemma_free_cell_exists(self.snake.cells(), self.size);
                }
                self.reward_cell = Self::generate_reward_cell(
                    self.size,
                    &self.snake.body,
                    &mut self.rng,
                );
            } else {
                self.reward_cell = None;
                self.status = Some(GameStatus::Won);
            }
            let neck = self.snake.body[1];
            self.snake.body.push(neck);
            assert(self@.body =~= moved.push(moved[1]));
            proof {
                if let Some(c) = self.reward_cell {
                    assert(!moved.contains(c));
                    assert forall|j: int| 0 <= j < self@.body.len() implies self@.body[j] != c by {
                        if j < moved.len() {
                            assert(moved[j] == self@.body[j]);
                        } else {
                            assert(self@.body[j] == moved[1]);
                        }
                    }
                }
            }
        }
    }
}

} // verus!
