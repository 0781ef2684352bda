//! The game: a snake, a piece of food, a score, and the frame that shows
//! them on the LED matrix.
//!
//! Food is placed with random numbers that the caller draws from the
//! hardware generator and hands in, `FOOD_DRAWS` of them per placement in the
//! order the generator yields them.
use vstd::prelude::*;
use crate::pixels::{in_matrix, pixel, light_pixel, dark_frame, lemma_test_bit, lemma_pixels_determine_frame};
use vstd::set_lib::{set_int_range, lemma_int_range, lemma_set_subset_finite, lemma_map_size};
use vstd::relations::injective_on;
use crate::snake::{Direction, Snake, SnakeModel, on_board, segment_from, BODY_CAPACITY, lemma_body_follows_head, lemma_grow_doubles_tail, lemma_step_leaves_neck};

verus! {

/// How many cells are tried before food placement gives up.
pub const FOOD_ATTEMPTS: usize = 64;

/// Random numbers used by one food placement: two per attempt.
pub const FOOD_DRAWS: usize = 128;

/// The cell that attempt `i` tries: the `2i`-th and `(2i+1)`-th draws,
/// each reduced modulo 8.
pub open spec fn draw_cell(draws: Seq<u32>, i: int) -> (u8, u8) {
    ((draws[2 * i] % 8) as u8, (draws[2 * i + 1] % 8) as u8)
}

/// The first cell, among attempts `i` to 63, that the snake does not
/// occupy; `None` when every one of them is occupied.
pub open spec fn food_spot(snake: SnakeModel, draws: Seq<u32>, i: int) -> Option<(u8, u8)>
    decreases 64 - i,
{
    if i < 0 || i >= 64 {
        None
    } else if !snake.occupies(draw_cell(draws, i)) {
        Some(draw_cell(draws, i))
    } else {
        food_spot(snake, draws, i + 1)
    }
}

/// What a game is.
pub struct GameModel {
    pub score: u8,
    pub snake: SnakeModel,
    pub food: (u8, u8),
    pub running: bool,
}

/// The game before food is first placed: a snake at the top-left corner
/// heading right, no body, no score.
pub open spec fn fresh_game() -> GameModel {
    GameModel {
        score: 0,
        snake: SnakeModel { head: (0, 0), heading: Direction::Right, body: Seq::empty() },
        food: (0, 0),
        running: true,
    }
}

/// A new game, its food placed with `draws`.
pub open spec fn started_game(draws: Seq<u32>) -> GameModel {
    fresh_game().with_food(draws)
}

impl GameModel {
    /// The snake's head and every segment are on the board.
    pub open spec fn snake_on_board(self) -> bool {
        &&& on_board(self.snake.head)
        &&& forall|i: int| 0 <= i < self.snake.body.len() ==> on_board(#[trigger] self.snake.body[i])
    }

    /// What every game keeps: the score counts the body segments, the body
    /// fits its buffer, the food is on the board, and while the game runs
    /// the whole snake is on the board and the food lies off the snake.
    pub open spec fn keeps_rules(self) -> bool {
        &&& self.board_rules()
        &&& self.running ==> !self.snake.occupies(self.food)
    }

    /// The rules that hold even before food is placed: all but the food
    /// lying off the snake.
    pub open spec fn board_rules(self) -> bool {
        &&& self.score as int == self.snake.body.len()
        &&& self.snake.body.len() <= BODY_CAPACITY
        &&& on_board(self.food)
        &&& self.running ==> self.snake_on_board()
    }

    /// Food placed with `draws`: on the first free cell tried; when none of
    /// the attempts finds one, the game stops and the food stays.
    pub open spec fn with_food(self, draws: Seq<u32>) -> GameModel {
        match food_spot(self.snake, draws, 0) {
            Some(p) => GameModel { food: p, ..self },
            None => GameModel { running: false, ..self },
        }
    }

    /// The game after the player asks for direction `d`.
    pub open spec fn turned(self, d: Direction) -> GameModel {
        GameModel { snake: self.snake.turned(d), ..self }
    }

    /// The game after one tick: a stopped game stays as it is; otherwise the
    /// snake steps, the game stops when the head left the board or hit the
    /// body, and when the head reached the food the score goes up, the snake
    /// grows and new food is placed with `draws`.
    pub open spec fn ticked(self, draws: Seq<u32>) -> GameModel {
        if !self.running {
            self
        } else {
            let s = self.snake.advanced();
            if s.outside() || s.collides() {
                GameModel { snake: s, running: false, ..self }
            } else if s.head == self.food {
                GameModel { score: (self.score + 1) as u8, snake: s.grown(), ..self }.with_food(
                    draws,
                )
            } else {
                GameModel { snake: s, ..self }
            }
        }
    }

    /// The next tick would feed a snake whose body already fills its buffer:
    /// the snake has covered the whole board.
    pub open spec fn fills_board(self) -> bool {
        let s = self.snake.advanced();
        &&& self.running
        &&& !s.outside()
        &&& !s.collides()
        &&& s.head == self.food
        &&& s.body.len() >= BODY_CAPACITY
    }

    /// The cell in column `col` and row `row` is lit: the game runs and the
    /// snake or the food is there.
    pub open spec fn lit(self, col: int, row: int) -> bool {
        &&& self.running
        &&& 0 <= col < 8
        &&& 0 <= row < 8
        &&& (self.snake.occupies((col as u8, row as u8)) || self.food == (col as u8, row as u8))
    }
}

/// `dst` shows the frame `src` turned for the display: the pixel in row `y`,
/// column `x` of `src` lands in row `7 - x`, column `7 - y` of `dst`.
pub open spec fn turned_for_display(src: Seq<u8>, dst: Seq<u8>) -> bool {
    &&& dst.len() == 8
    &&& forall|r: int, c: int| in_matrix(r, c) ==> #[trigger] pixel(dst, r, c) == pixel(src, 7 - c, 7 - r)
}

/// A game of snake.
pub struct Game {
    pub score: u8,
    snake: Snake,
    food_x: u8,
    food_y: u8,
    running: bool,
}

impl View for Game {
    type V = GameModel;

    closed spec fn view(&self) -> GameModel {
        GameModel {
            score: self.score,
            snake: self.snake@,
            food: (self.food_x, self.food_y),
            running: self.running,
        }
    }
}

impl Game {
    /// The game keeps its invariant.
    pub closed spec fn wf(&self) -> bool {
        &&& self.snake.wf()
        &&& self@.keeps_rules()
    }

    /// Every game in reach satisfies the invariant of its model.
    pub proof fn lemma_wf_invariant(&self)
        ensures
            self.wf() ==> self@.keeps_rules(),
    {
    }

    /// A new game, its food placed with `draws`.
    pub fn new(draws: &[u32; 128]) -> (g: Self)
        ensures
            g.wf(),
            g@ == started_game(draws@),
    {
        let mut game = Game {
            snake: Snake::new(0, 0, Direction::Right),
            food_x: 0,
            food_y: 0,
            running: true,
            score: 0,
        };
        game.place_food(draws);
        game
    }

    /// Puts the food on the first of up to `FOOD_ATTEMPTS` random cells that
    /// the snake does not occupy; stops the game when there is none.
    fn place_food(&mut self, draws: &[u32; 128])
        requires
            old(self).snake.wf(),
            old(self)@.board_rules(),
        ensures
            final(self).wf(),
            final(self)@ == old(self)@.with_food(draws@),
    {
        let mut i: usize = 0;
        while i < FOOD_ATTEMPTS
            invariant
                i <= FOOD_ATTEMPTS,
                *self == *old(self),
                self.snake.wf(),
                self@.board_rules(),
                food_spot(self.snake@, draws@, 0) == food_spot(self.snake@, draws@, i as int),
            decreases FOOD_ATTEMPTS - i,
        {
            let x = (draws[2 * i] % 8) as u8;
            let y = (draws[2 * i + 1] % 8) as u8;
            assert((x, y) == draw_cell(draws@, i as int));
            if !self.snake.occupies(x, y) {
                self.food_x = x;
                self.food_y = y;
                return;
            }
            i = i + 1;
        }
        self.running = false;
    }

    /// Asks the snake to head `dir`; a direct reversal is ignored.
    pub fn change_direction(&mut self, dir: Direction)
        requires
            old(self).wf(),
        ensures
            final(self).wf(),
            final(self)@ == old(self)@.turned(dir),
    {
        self.snake.set_direction(dir);
    }

    /// The next tick would feed a snake that fills the whole board, which
    /// its body buffer cannot hold.
    pub fn next_tick_fills_board(&self) -> (r: bool)
        requires
            self.wf(),
        ensures
            r == self@.fills_board(),
    {
        if !self.running {
            return false;
        }
        let next = self.snake.peek_advanced();
        let h = next.head();
        proof {
            next.lemma_body_fits();
        }
        !next.is_outside() && !next.collides_with_self() && h.0 == self.food_x && h.1
            == self.food_y && next.body_segments().len() >= BODY_CAPACITY
    }

    /// One step of the game: moves the snake, stops the game when the snake
    /// leaves the board or runs into itself, and feeds it when it reaches the
    /// food, placing new food with `draws`.
    pub fn tick(&mut self, draws: &[u32; 128])
        requires
            old(self).wf(),
            !old(self)@.fills_board(),
        ensures
            final(self).wf(),
            final(self)@ == old(self)@.ticked(draws@),
    {
        if !self.is_running() {
            return;
        }
        let ghost g0 = self@;
        self.snake.advance();
        proof {
            self.snake.lemma_body_fits();
            lemma_body_follows_head(g0.snake);
        }
        if self.snake.is_outside() || self.snake.collides_with_self() {
            self.running = false;
            return;
        }
        let h = self.snake.head();
        if h.0 == self.food_x && h.1 == self.food_y {
            self.score = self.score + 1;
            self.snake.grow();
            proof {
                lemma_grow_doubles_tail(g0.snake.advanced());
                assert(self@.snake_on_board());
            }
            self.place_food(draws);
        } else {
            proof {
                assert(self@.snake_on_board());
            }
        }
    }

    /// The frame to show: the snake and the food, turned for the display;
    /// all dark once the game is over.
    pub fn frame(&self) -> (f: [u8; 8])
        requires
            self.wf(),
        ensures
            forall|r: int, c: int| in_matrix(r, c) ==> #[trigger] pixel(f@, r, c) == self@.lit(7 - r, 7 - c),
            !self@.running ==> forall|i: int| 0 <= i < 8 ==> f@[i] == 0,
    {
        if !self.is_running() {
            return dark_frame();
        }
        let mut frame = dark_frame();
        let h = self.snake.head();
        light_pixel(&mut frame, h.1 as usize, h.0);
        let segs = self.snake.body_segments();
        let mut i: usize = 0;
        while i < segs.len()
            invariant
                self.wf(),
                self@.running,
                segs@ == self@.snake.body,
                i <= segs@.len(),
                h == self@.snake.head,
                forall|r: int, c: int| in_matrix(r, c) ==> #[trigger] pixel(frame@, r, c) == (h == (
                c as u8,
                r as u8,
                ) || segs@.subrange(0, i as int).contains((c as u8, r as u8))),
            decreases segs@.len() - i,
        {
            let seg = segs[i];
            assert(on_board(self@.snake.body[i as int]));
            let ghost before = frame@;
            light_pixel(&mut frame, seg.1 as usize, seg.0);
            proof {
                assert forall|r: int, c: int| in_matrix(r, c) implies #[trigger] pixel(frame@, r, c)
                    == (h == (c as u8, r as u8) || segs@.subrange(0, i + 1).contains(
                    (c as u8, r as u8),
                )) by {
                    let p = (c as u8, r as u8);
                    let pre = segs@.subrange(0, i as int);
                    let post = segs@.subrange(0, i + 1);
                    assert(post =~= pre.push(seg));
                    if pre.contains(p) {
                        let k = choose|k: int| 0 <= k < pre.len() && #[trigger] pre[k] == p;
                        assert(post[k] == p);
                    }
                    if post.contains(p) && p != seg {
                        let k = choose|k: int| 0 <= k < post.len() && #[trigger] post[k] == p;
                        assert(pre[k] == p);
                    }
                    if p == seg {
                        assert(post[i as int] == p);
                    }
                }
            }
            i = i + 1;
        }
        assert(segs@.subrange(0, segs@.len() as int) =~= segs@);
        light_pixel(&mut frame, self.food_y as usize, self.food_x);
        let ghost raw = frame@;
        let out = rotate_for_display(&frame);
        proof {
            assert forall|r: int, c: int| in_matrix(r, c) implies #[trigger] pixel(out@, r, c)
                == self@.lit(7 - r, 7 - c) by {
                assert(pixel(out@, r, c) == pixel(raw, 7 - c, 7 - r));
            }
        }
        out
    }

    /// The game is still going.
    pub fn is_running(&self) -> (r: bool)
        ensures
            r == self@.running,
    {
        self.running
    }

    /// Starts over: a new snake, no score, the game running, food placed
    /// with `draws`; when every attempt hits the new snake the food stays
    /// where it was and the game stops again.
    pub fn reset(&mut self, draws: &[u32; 128])
        requires
            old(self).wf(),
        ensures
            final(self).wf(),
            final(self)@ == (GameModel { food: old(self)@.food, ..fresh_game() }).with_food(draws@),
    {
        self.snake = Snake::new(0, 0, Direction::Right);
        self.running = true;
        self.score = 0;
        self.place_food(draws);
    }

    /// The score: how much food the snake has eaten.
    pub fn score(&self) -> (r: u8)
        ensures
            r == self@.score,
    {
        self.score
    }
}

/// Turns a frame for the display, whose rows run along the matrix's columns:
/// the pixel in row `y`, column `x` goes to row `7 - x`, column `7 - y`.
pub fn rotate_for_display(frame: &[u8; 8]) -> (rotated: [u8; 8])
    ensures
        turned_for_display(frame@, rotated@),
{
    let mut rotated = dark_frame();
    let mut y: usize = 0;
    while y < 8
        invariant
            y <= 8,
            forall|r: int, c: int| in_matrix(r, c) ==> #[trigger] pixel(rotated@, r, c) == (7 - c
                < y && pixel(frame@, 7 - c, 7 - r)),
        decreases 8 - y,
    {
        let mut x: u8 = 0;
        while x < 8
            invariant
                x <= 8,
                y < 8,
                forall|r: int, c: int| in_matrix(r, c) ==> #[trigger] pixel(rotated@, r, c) == ((7
                    - c < y || (7 - c == y && 7 - r < x)) && pixel(frame@, 7 - c, 7 - r)),
            decreases 8 - x,
        {
            proof {
                lemma_test_bit(frame@[y as int], x);
            }
            if frame[y] & (1u8 << x) != 0 {
                light_pixel(&mut rotated, (7 - x) as usize, (7 - y) as u8);
            }
            x = x + 1;
        }
        y = y + 1;
    }
    rotated
}

/// Turning a frame for the display moves the pixel in row `y`, column `x`
/// to row `7 - x`, column `7 - y`.
pub proof fn lemma_turn_moves_pixels(f: Seq<u8>, g: Seq<u8>)
    requires
        turned_for_display(f, g),
    ensures
        forall|y: int, x: int| in_matrix(y, x) ==> #[trigger] pixel(f, y, x) == pixel(g, 7 - x, 7 - y),
{
    assert forall|y: int, x: int| in_matrix(y, x) implies #[trigger] pixel(f, y, x) == pixel(
        g,
        7 - x,
        7 - y,
    ) by {
        assert(pixel(g, 7 - x, 7 - y) == pixel(f, 7 - (7 - y), 7 - (7 - x)));
    }
}

/// Turning a frame for the display twice gives the frame back: the turn is
/// a reflection across the anti-diagonal.
pub proof fn lemma_turn_twice_restores(f: Seq<u8>, g: Seq<u8>, h: Seq<u8>)
    requires
        f.len() == 8,
        turned_for_display(f, g),
        turned_for_display(g, h),
    ensures
        h == f,
{
    assert forall|r: int, c: int| in_matrix(r, c) implies #[trigger] pixel(h, r, c) == pixel(
        f,
        r,
        c,
    ) by {
        assert(pixel(h, r, c) == pixel(g, 7 - c, 7 - r));
        assert(pixel(g, 7 - c, 7 - r) == pixel(f, 7 - (7 - r), 7 - (7 - c)));
    }
    lemma_pixels_determine_frame(h, f);
}

/// Placing food establishes the rules: the food lands on the board, off
/// the snake, or the game stops.
pub proof fn lemma_food_keeps_rules(g: GameModel, draws: Seq<u32>)
    requires
        g.board_rules(),
    ensures
        g.with_food(draws).keeps_rules(),
        g.with_food(draws).snake == g.snake,
        g.with_food(draws).score == g.score,
{
    lemma_food_avoids_snake(g.snake, draws, 0);
}

/// A new game keeps the rules.
pub proof fn lemma_start_keeps_rules(draws: Seq<u32>)
    ensures
        started_game(draws).keeps_rules(),
        started_game(draws).score == 0,
{
    lemma_food_keeps_rules(fresh_game(), draws);
}

/// Turning keeps the rules and never stops or restarts the game.
pub proof fn lemma_turn_keeps_rules(g: GameModel, d: Direction)
    requires
        g.keeps_rules(),
    ensures
        g.turned(d).keeps_rules(),
        g.turned(d).running == g.running,
{
}

/// A tick keeps the rules; the score goes up by one exactly when the snake
/// eats, and never goes down.
pub proof fn lemma_tick_keeps_rules(g: GameModel, draws: Seq<u32>)
    requires
        g.keeps_rules(),
        !g.fills_board(),
    ensures
        g.ticked(draws).keeps_rules(),
        g.ticked(draws).score == g.score || g.ticked(draws).score == g.score + 1,
        g.ticked(draws).score == g.score + 1 <==> (g.running && !g.snake.advanced().outside()
            && !g.snake.advanced().collides() && g.snake.advanced().head == g.food),
{
    if g.running {
        let s = g.snake.advanced();
        lemma_body_follows_head(g.snake);
        if !(s.outside() || s.collides()) && s.head == g.food {
            lemma_grow_doubles_tail(s);
            let fed = GameModel { score: (g.score + 1) as u8, snake: s.grown(), ..g };
            assert(fed.snake_on_board());
            lemma_food_keeps_rules(fed, draws);
        } else if !(s.outside() || s.collides()) {
            assert(GameModel { snake: s, ..g }.snake_on_board());
        }
    }
}

/// A stopped game stays stopped, unchanged, however it is ticked or turned
/// (only a reset starts a new one).
pub proof fn lemma_stopped_game_stays(g: GameModel, draws: Seq<u32>, d: Direction)
    requires
        !g.running,
    ensures
        g.ticked(draws) == g,
        !g.turned(d).running,
        forall|col: int, row: int| !g.lit(col, row),
{
}

/// While the game runs, the head is never on a body segment past the first.
pub proof fn lemma_running_snake_is_clear(g: GameModel, draws: Seq<u32>)
    requires
        g.keeps_rules(),
        !g.fills_board(),
        g.running,
        g.ticked(draws).running,
    ensures
        !g.ticked(draws).snake.collides(),
{
    let s = g.snake.advanced();
    lemma_step_leaves_neck(g.snake);
    if s.head == g.food {
        let t = s.grown();
        lemma_grow_doubles_tail(s);
        lemma_food_keeps_rules(GameModel { score: (g.score + 1) as u8, snake: t, ..g }, draws);
        if t.collides() {
            let k = choose|k: int| 1 <= k < t.body.len() && #[trigger] t.body[k] == t.head;
            if k < s.body.len() {
                assert(t.body[k] == s.body[k]);
                assert(segment_from(s.body, 1, s.head));
            } else {
                assert(k == s.body.len());
                if s.body.len() > 1 {
                    assert(s.body[s.body.len() - 1] == s.head);
                    assert(segment_from(s.body, 1, s.head));
                }
            }
        }
    }
}

/// The lit pixels of a frame, as (row, column) pairs.
pub open spec fn lit_cells(f: Seq<u8>) -> Set<(int, int)> {
    Set::new(|p: (int, int)| in_matrix(p.0, p.1) && pixel(f, p.0, p.1))
}

/// Every (row, column) pair of the matrix.
pub open spec fn matrix_cells() -> Set<(int, int)> {
    Set::new(|p: (int, int)| in_matrix(p.0, p.1))
}

/// The matrix has finitely many cells.
proof fn lemma_matrix_finite()
    ensures
        matrix_cells().finite(),
{
    let range = set_int_range(0, 64);
    lemma_int_range(0, 64);
    let split = |k: int| (k / 8, k % 8);
    range.lemma_map_finite(split);
    assert forall|p: (int, int)| matrix_cells().contains(p) implies range.map(split).contains(p) by {
        let k = 8 * p.0 + p.1;
        assert(k / 8 == p.0 && k % 8 == p.1) by (nonlinear_arith)
            requires
                0 <= p.0 < 8,
                0 <= p.1 < 8,
                k == 8 * p.0 + p.1,
        ;
        assert(range.contains(k) && split(k) == p);
    }
    lemma_set_subset_finite(range.map(split), matrix_cells());
}

/// Turning a frame for the display keeps the number of lit pixels.
pub proof fn lemma_turn_keeps_lit_count(f: Seq<u8>, g: Seq<u8>)
    requires
        f.len() == 8,
        turned_for_display(f, g),
    ensures
        lit_cells(f).finite(),
        lit_cells(g).finite(),
        lit_cells(g).len() == lit_cells(f).len(),
{
    lemma_matrix_finite();
    lemma_set_subset_finite(matrix_cells(), lit_cells(f));
    let mirror = |p: (int, int)| (7 - p.1, 7 - p.0);
    assert forall|q: (int, int)| lit_cells(g).contains(q) implies lit_cells(f).map(mirror).contains(
        q,
    ) by {
        let p = (7 - q.1, 7 - q.0);
        assert(pixel(g, q.0, q.1) == pixel(f, 7 - q.1, 7 - q.0));
        assert(lit_cells(f).contains(p) && mirror(p) == q);
    }
    assert forall|q: (int, int)| lit_cells(f).map(mirror).contains(q) implies lit_cells(g).contains(
        q,
    ) by {
        let p = choose|p: (int, int)| lit_cells(f).contains(p) && mirror(p) == q;
        assert(pixel(g, 7 - p.1, 7 - p.0) == pixel(f, 7 - (7 - p.0), 7 - (7 - p.1)));
    }
    assert(lit_cells(f).map(mirror) =~= lit_cells(g));
    assert(injective_on(mirror, lit_cells(f)));
    lemma_map_size(lit_cells(f), lit_cells(g), mirror);
}

/// Food is never placed on the snake, and always on the board.
pub proof fn lemma_food_avoids_snake(snake: SnakeModel, draws: Seq<u32>, i: int)
    ensures
        food_spot(snake, draws, i) matches Some(p) ==> !snake.occupies(p) && on_board(p),
    decreases 64 - i,
{
    if 0 <= i < 64 && snake.occupies(draw_cell(draws, i)) {
        lemma_food_avoids_snake(snake, draws, i + 1);
    }
}

/// The cell that attempt `i` of a placement draws: the two draws of that
/// attempt, each modulo 8.
spec fn attempt_cell(draws: Seq<u32>, i: int) -> (u8, u8) {
    ((draws[2 * i] % 8) as u8, (draws[2 * i + 1] % 8) as u8)
}

/// From attempt `k` on, placement reaches attempt `i` when every attempt
/// before `i` hits the snake and attempt `i` is free.
proof fn lemma_search_reaches(snake: SnakeModel, draws: Seq<u32>, k: int, i: int)
    requires
        0 <= k <= i < 64,
        forall|j: int| k <= j < i ==> snake.occupies(#[trigger] attempt_cell(draws, j)),
        !snake.occupies(attempt_cell(draws, i)),
    ensures
        food_spot(snake, draws, k) == Some(attempt_cell(draws, i)),
    decreases i - k,
{
    if k < i {
        assert(snake.occupies(attempt_cell(draws, k)));
        lemma_search_reaches(snake, draws, k + 1, i);
    }
}

/// From attempt `k` on, placement gives up exactly when every attempt from
/// `k` to 63 hits the snake.
proof fn lemma_search_gives_up(snake: SnakeModel, draws: Seq<u32>, k: int)
    requires
        0 <= k <= 64,
    ensures
        food_spot(snake, draws, k) is None <==> forall|j: int|
            k <= j < 64 ==> snake.occupies(#[trigger] attempt_cell(draws, j)),
    decreases 64 - k,
{
    if k < 64 {
        lemma_search_gives_up(snake, draws, k + 1);
        assert(attempt_cell(draws, k) == draw_cell(draws, k));
        if food_spot(snake, draws, k) is None {
            assert(snake.occupies(attempt_cell(draws, k)));
            assert forall|j: int| k <= j < 64 implies snake.occupies(#[trigger] attempt_cell(draws, j)) by {
                if j > k {
                }
            }
        }
        if forall|j: int| k <= j < 64 ==> snake.occupies(#[trigger] attempt_cell(draws, j)) {
            assert(snake.occupies(attempt_cell(draws, k)));
            assert(forall|j: int| k + 1 <= j < 64 ==> snake.occupies(#[trigger] attempt_cell(draws, j)));
        }
    }
}

/// Food goes on the first of the 64 attempts that draws a free cell: when
/// attempts `0..i` all land on the snake and attempt `i` (any `i < 64`) is
/// free, the food is placed on the cell that attempt `i` draws and a running
/// game keeps running.
pub proof fn lemma_first_free_attempt_wins(g: GameModel, draws: Seq<u32>, i: int)
    requires
        0 <= i < 64,
        forall|j: int|
            0 <= j < i ==> g.snake.occupies(
                ((#[trigger] draws[2 * j] % 8) as u8, (draws[2 * j + 1] % 8) as u8),
            ),
        !g.snake.occupies(((draws[2 * i] % 8) as u8, (draws[2 * i + 1] % 8) as u8)),
    ensures
        g.with_food(draws).food == ((draws[2 * i] % 8) as u8, (draws[2 * i + 1] % 8) as u8),
        g.with_food(draws).running == g.running,
        g.with_food(draws).snake == g.snake,
        g.with_food(draws).score == g.score,
{
    assert forall|j: int| 0 <= j < i implies g.snake.occupies(#[trigger] attempt_cell(draws, j)) by {
        assert(g.snake.occupies(((draws[2 * j] % 8) as u8, (draws[2 * j + 1] % 8) as u8)));
    }
    lemma_search_reaches(g.snake, draws, 0, i);
}

/// Placement stops the game only when all 64 attempts land on the snake:
/// the game runs afterwards exactly when it ran before and some attempt
/// `i < 64` draws a cell off the snake.
pub proof fn lemma_gives_up_only_when_all_attempts_hit(g: GameModel, draws: Seq<u32>)
    ensures
        g.with_food(draws).running <==> (g.running && exists|i: int|
            0 <= i < 64 && !g.snake.occupies(
                ((#[trigger] draws[2 * i] % 8) as u8, (draws[2 * i + 1] % 8) as u8),
            )),
{
    lemma_search_gives_up(g.snake, draws, 0);
    if exists|i: int|
        0 <= i < 64 && !g.snake.occupies(
            ((#[trigger] draws[2 * i] % 8) as u8, (draws[2 * i + 1] % 8) as u8),
        ) {
        let i = choose|i: int|
            0 <= i < 64 && !g.snake.occupies(
                ((#[trigger] draws[2 * i] % 8) as u8, (draws[2 * i + 1] % 8) as u8),
            );
        assert(!g.snake.occupies(attempt_cell(draws, i)));
    } else {
        assert forall|j: int| 0 <= j < 64 implies g.snake.occupies(#[trigger] attempt_cell(draws, j)) by {
            assert(g.snake.occupies(((draws[2 * j] % 8) as u8, (draws[2 * j + 1] % 8) as u8)));
        }
    }
}

/// While the game runs, its frame lights the head, every body segment and
/// the food (each that is on the board), and nothing else; a stopped game
/// lights nothing.
pub proof fn lemma_frame_shows_snake_and_food(g: GameModel, col: int, row: int)
    ensures
        g.running && on_board(g.snake.head) ==> g.lit(g.snake.head.0 as int, g.snake.head.1 as int),
        g.running && on_board(g.food) ==> g.lit(g.food.0 as int, g.food.1 as int),
        forall|i: int|
            0 <= i < g.snake.body.len() && g.running && on_board(#[trigger] g.snake.body[i])
                ==> g.lit(g.snake.body[i].0 as int, g.snake.body[i].1 as int),
        g.lit(col, row) ==> {
            &&& g.running
            &&& 0 <= col < 8
            &&& 0 <= row < 8
            &&& (g.snake.head == (col as u8, row as u8) || g.food == (col as u8, row as u8)
                || exists|i: int|
                0 <= i < g.snake.body.len() && #[trigger] g.snake.body[i] == (col as u8, row as u8))
        },
{
    assert forall|i: int|
        0 <= i < g.snake.body.len() && g.running && on_board(#[trigger] g.snake.body[i]) implies g.lit(
        g.snake.body[i].0 as int,
        g.snake.body[i].1 as int,
    ) by {
        let p = g.snake.body[i];
        assert(((p.0 as int) as u8, (p.1 as int) as u8) == p);
        assert(g.snake.body.contains(p));
    }
}

/// In a frame of the running game, the pixel of every body segment is set
/// (turned for the display: the cell `(x, y)` is the pixel in row `7 - x`,
/// column `7 - y`).
pub proof fn lemma_frame_lights_every_segment(g: GameModel, f: Seq<u8>)
    requires
        g.running,
        g.snake_on_board(),
        forall|r: int, c: int| in_matrix(r, c) ==> #[trigger] pixel(f, r, c) == g.lit(7 - r, 7 - c),
    ensures
        forall|i: int|
            0 <= i < g.snake.body.len() ==> pixel(
                f,
                7 - (#[trigger] g.snake.body[i]).0,
                7 - g.snake.body[i].1,
            ),
        pixel(f, 7 - g.snake.head.0, 7 - g.snake.head.1),
{
    lemma_frame_shows_snake_and_food(g, 0, 0);
    assert forall|i: int| 0 <= i < g.snake.body.len() implies pixel(
        f,
        7 - (#[trigger] g.snake.body[i]).0,
        7 - g.snake.body[i].1,
    ) by {
        let p = g.snake.body[i];
        assert(on_board(p));
        assert(g.lit(p.0 as int, p.1 as int));
        assert(pixel(f, 7 - p.0, 7 - p.1) == g.lit(7 - (7 - p.0), 7 - (7 - p.1)));
    }
    assert(pixel(f, 7 - g.snake.head.0, 7 - g.snake.head.1) == g.lit(
        7 - (7 - g.snake.head.0),
        7 - (7 - g.snake.head.1),
    ));
}

} // verus!
