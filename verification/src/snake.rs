//! The snake: a head that moves one cell per step with wrapping `u8`
//! coordinates, and a trail of body segments that follows it.
use vstd::prelude::*;

verus! {

/// Where the snake's head points.
#[derive(Clone, Copy, Debug, PartialEq, Eq, Structural)]
pub enum Direction {
    Left,
    Right,
    Up,
    Down,
}

/// How many body segments the snake can hold: a full board minus the head.
pub const BODY_CAPACITY: usize = 63;

/// The direction pointing the other way.
pub open spec fn opposite(d: Direction) -> Direction {
    match d {
        Direction::Left => Direction::Right,
        Direction::Right => Direction::Left,
        Direction::Up => Direction::Down,
        Direction::Down => Direction::Up,
    }
}

/// `v - 1`, wrapping below zero.
pub open spec fn wrap_dec(v: u8) -> u8 {
    if v == 0 {
        255u8
    } else {
        (v - 1) as u8
    }
}

/// `v + 1`, wrapping above 255.
pub open spec fn wrap_inc(v: u8) -> u8 {
    if v == 255 {
        0u8
    } else {
        (v + 1) as u8
    }
}

/// The cell one step from `p` in direction `d`; left and up decrease a
/// coordinate, right and down increase it, each wrapping as `u8` does.
pub open spec fn moved(p: (u8, u8), d: Direction) -> (u8, u8) {
    match d {
        Direction::Left => (wrap_dec(p.0), p.1),
        Direction::Right => (wrap_inc(p.0), p.1),
        Direction::Up => (p.0, wrap_dec(p.1)),
        Direction::Down => (p.0, wrap_inc(p.1)),
    }
}

/// The cell lies on the 8x8 board.
pub open spec fn on_board(p: (u8, u8)) -> bool {
    p.0 < 8 && p.1 < 8
}

/// The cell lies on the board edge that a step in `d` leaves.
pub open spec fn at_edge(p: (u8, u8), d: Direction) -> bool {
    match d {
        Direction::Left => p.0 == 0,
        Direction::Right => p.0 == 7,
        Direction::Up => p.1 == 0,
        Direction::Down => p.1 == 7,
    }
}

/// The cells `p` and `q` are next to each other: they differ by one, with
/// `u8` wrapping, in exactly one coordinate.
pub open spec fn neighbours(p: (u8, u8), q: (u8, u8)) -> bool {
    ||| p.1 == q.1 && (p.0 == wrap_inc(q.0) || q.0 == wrap_inc(p.0))
    ||| p.0 == q.0 && (p.1 == wrap_inc(q.1) || q.1 == wrap_inc(p.1))
}

/// Two consecutive cells of a snake: the same cell (a segment stacked by
/// growing) or neighbours.
pub open spec fn linked(p: (u8, u8), q: (u8, u8)) -> bool {
    p == q || neighbours(p, q)
}

/// Some segment at position `from` or later is on cell `p`.
pub open spec fn segment_from(body: Seq<(u8, u8)>, from: int, p: (u8, u8)) -> bool {
    exists|i: int| from <= i < body.len() && #[trigger] body[i] == p
}

/// What a snake is: its head, its heading and its body segments, the
/// segment next to the head first.
pub struct SnakeModel {
    pub head: (u8, u8),
    pub heading: Direction,
    pub body: Seq<(u8, u8)>,
}

impl SnakeModel {
    /// The snake after asking it to head `d`: a direct reversal is ignored.
    pub open spec fn turned(self, d: Direction) -> SnakeModel {
        if self.heading != opposite(d) {
            SnakeModel { heading: d, ..self }
        } else {
            self
        }
    }

    /// The snake after one step: the head moves, the body takes the old head
    /// as its first segment and drops its last one.
    pub open spec fn advanced(self) -> SnakeModel {
        SnakeModel {
            head: moved(self.head, self.heading),
            heading: self.heading,
            body: if self.body.len() == 0 {
                self.body
            } else {
                seq![self.head] + self.body.drop_last()
            },
        }
    }

    /// The snake after eating: the last segment (the head for an empty body)
    /// is doubled, so the body grows by one at its end.
    pub open spec fn grown(self) -> SnakeModel {
        SnakeModel {
            body: self.body.push(
                if self.body.len() > 0 {
                    self.body.last()
                } else {
                    self.head
                },
            ),
            ..self
        }
    }

    /// The head or a body segment is on cell `p`.
    pub open spec fn occupies(self, p: (u8, u8)) -> bool {
        self.head == p || self.body.contains(p)
    }

    /// The head is on a body segment past the first one. The first segment
    /// is where the head just was, so a step never runs into it; it lies
    /// under the head only while a new segment is stacked there by growing
    /// an empty body, which is no collision.
    pub open spec fn collides(self) -> bool {
        segment_from(self.body, 1, self.head)
    }

    /// The head is off the board.
    pub open spec fn outside(self) -> bool {
        !on_board(self.head)
    }

    /// The snake is a connected chain: the head is linked to the first
    /// segment and each segment to the next.
    pub open spec fn chained(self) -> bool {
        &&& self.body.len() > 0 ==> linked(self.head, self.body[0])
        &&& forall|i: int|
            0 <= i < self.body.len() - 1 ==> linked(#[trigger] self.body[i], self.body[i + 1])
    }
}

/// A snake whose body is held in a fixed buffer.
pub struct Snake {
    pub head_x: u8,
    pub head_y: u8,
    direction: Direction,
    body: [(u8, u8); 63],
    body_len: usize,
}

impl View for Snake {
    type V = SnakeModel;

    closed spec fn view(&self) -> SnakeModel {
        SnakeModel {
            head: (self.head_x, self.head_y),
            heading: self.direction,
            body: self.body@.subrange(0, self.body_len as int),
        }
    }
}

/// The direction pointing the other way.
pub fn opposite_direction(dir: Direction) -> (r: Direction)
    ensures
        r == opposite(dir),
{
    match dir {
        Direction::Left => Direction::Right,
        Direction::Right => Direction::Left,
        Direction::Up => Direction::Down,
        Direction::Down => Direction::Up,
    }
}

impl Snake {
    /// The body fits its buffer and the snake is a connected chain.
    pub closed spec fn wf(&self) -> bool {
        &&& self.body_len <= BODY_CAPACITY
        &&& self@.chained()
    }

    /// A well-formed snake has at most `BODY_CAPACITY` segments and is a
    /// connected chain; every snake that `new` and the methods make is
    /// well-formed.
    pub proof fn lemma_body_fits(&self)
        ensures
            self.wf() ==> self@.body.len() <= BODY_CAPACITY,
            self.wf() ==> self@.chained(),
    {
    }

    /// The cell of the head, `(head_x, head_y)`.
    pub fn head(&self) -> (r: (u8, u8))
        ensures
            r == self@.head,
    {
        (self.head_x, self.head_y)
    }

    /// A snake at `(x, y)` heading `direction`, with no body.
    pub fn new(x: u8, y: u8, direction: Direction) -> (s: Self)
        ensures
            s.wf(),
            s@ == (SnakeModel { head: (x, y), heading: direction, body: Seq::empty() }),
    {
        let s = Snake { head_x: x, head_y: y, direction, body: [(0, 0); 63], body_len: 0 };
        assert(s@.body =~= Seq::<(u8, u8)>::empty());
        proof {
            lemma_chain_kept(s@, direction);
        }
        s
    }

    /// Heads the snake `dir`, unless that is straight back.
    pub fn set_direction(&mut self, dir: Direction)
        requires
            old(self).wf(),
        ensures
            final(self).wf(),
            final(self)@ == old(self)@.turned(dir),
    {
        proof {
            lemma_chain_kept(old(self)@, dir);
        }
        if self.direction != opposite_direction(dir) {
            self.direction = dir;
        }
    }

    /// Moves the head one cell in its direction; the body follows it.
    pub fn advance(&mut self)
        requires
            old(self).wf(),
        ensures
            final(self).wf(),
            final(self)@ == old(self)@.advanced(),
    {
        let ghost old_body = self.body@;
        let len = self.body_len;
        if len > 0 {
            let mut i: usize = len - 1;
            while i > 0
                invariant
                    0 < len <= BODY_CAPACITY,
                    i < len,
                    self.body_len == len,
                    self.body@.len() == BODY_CAPACITY,
                    self.head_x == old(self).head_x,
                    self.head_y == old(self).head_y,
                    self.direction == old(self).direction,
                    old_body == old(self).body@,
                    forall|j: int| 0 <= j <= i ==> self.body@[j] == old_body[j],
                    forall|j: int| i < j < len ==> self.body@[j] == old_body[j - 1],
                decreases i,
            {
                let prev = self.body[i - 1];
                self.body[i] = prev;
                i = i - 1;
            }
            self.body[0] = (self.head_x, self.head_y);
            assert(self.body@.subrange(0, len as int) =~= seq![(self.head_x, self.head_y)]
                + old_body.subrange(0, len as int).drop_last());
        }
        proof {
            lemma_chain_kept(old(self)@, old(self)@.heading);
        }
        match self.direction {
            Direction::Left => self.head_x = self.head_x.wrapping_sub(1),
            Direction::Right => self.head_x = self.head_x.wrapping_add(1),
            Direction::Up => self.head_y = self.head_y.wrapping_sub(1),
            Direction::Down => self.head_y = self.head_y.wrapping_add(1),
        }
    }

    /// A segment at position `from` or later is on `(x, y)`.
    fn segment_on(&self, from: usize, x: u8, y: u8) -> (r: bool)
        requires
            self.wf(),
        ensures
            r == segment_from(self@.body, from as int, (x, y)),
    {
        let mut i: usize = from;
        while i < self.body_len
            invariant
                self.wf(),
                from <= i,
                forall|j: int| from <= j < i ==> self.body@[j] != (x, y),
            decreases self.body_len - i,
        {
            let seg = self.body[i];
            if seg.0 == x && seg.1 == y {
                assert(self@.body[i as int] == (x, y));
                return true;
            }
            i = i + 1;
        }
        proof {
            if segment_from(self@.body, from as int, (x, y)) {
                let k = choose|k: int|
                    from <= k < self@.body.len() && #[trigger] self@.body[k] == (x, y);
                assert(self.body@[k] == (x, y));
            }
        }
        false
    }

    /// The head has run into the body past its first segment.
    pub fn collides_with_self(&self) -> (r: bool)
        requires
            self.wf(),
        ensures
            r == self@.collides(),
    {
        self.segment_on(1, self.head_x, self.head_y)
    }

    /// The head has left the 8x8 board.
    pub fn is_outside(&self) -> (r: bool)
        ensures
            r == self@.outside(),
    {
        self.head_x > 7 || self.head_y > 7
    }

    /// Adds a segment at the end of the body, doubling the last one (or the
    /// head when there is no body yet).
    pub fn grow(&mut self)
        requires
            old(self).wf(),
            old(self)@.body.len() < BODY_CAPACITY,
        ensures
            final(self).wf(),
            final(self)@ == old(self)@.grown(),
    {
        let eaten_point = if self.body_len > 0 {
            self.body[self.body_len - 1]
        } else {
            (self.head_x, self.head_y)
        };
        let ghost old_body = self.body@;
        let len = self.body_len;
        proof {
            lemma_chain_kept(old(self)@, old(self)@.heading);
        }
        self.body[len] = eaten_point;
        self.body_len = len + 1;
        assert(self.body@.subrange(0, len + 1) =~= old_body.subrange(0, len as int).push(
            eaten_point,
        ));
    }

    /// The body segments, the one next to the head first.
    pub fn body_segments(&self) -> (r: &[(u8, u8)])
        requires
            self.wf(),
        ensures
            r@ == self@.body,
    {
        let all = self.body.as_slice();
        let r = &all[0..self.body_len];
        r
    }

    /// The head or a body segment is on `(x, y)`.
    pub fn occupies(&self, x: u8, y: u8) -> (r: bool)
        requires
            self.wf(),
        ensures
            r == self@.occupies((x, y)),
    {
        let r = (self.head_x == x && self.head_y == y) || self.segment_on(0, x, y);
        proof {
            if segment_from(self@.body, 0, (x, y)) {
                let k = choose|k: int| 0 <= k < self@.body.len() && #[trigger] self@.body[k] == (x, y);
                assert(self@.body.contains((x, y)));
            }
        }
        r
    }

    /// A copy of this snake moved one step, the snake itself unchanged.
    pub fn peek_advanced(&self) -> (s: Snake)
        requires
            self.wf(),
        ensures
            s.wf(),
            s@ == self@.advanced(),
    {
        let mut s = Snake {
            head_x: self.head_x,
            head_y: self.head_y,
            direction: self.direction,
            body: self.body,
            body_len: self.body_len,
        };
        s.advance();
        s
    }
}

/// Turning the other way twice gives the direction back, and no direction
/// is its own opposite.
pub proof fn lemma_opposite_involutive(d: Direction)
    ensures
        opposite(opposite(d)) == d,
        opposite(d) != d,
{
}

/// A snake never turns straight back: after a request to head `d` it heads
/// either its old way or `d`, and never opposite to its old way.
pub proof fn lemma_turn_never_reverses(s: SnakeModel, d: Direction)
    ensures
        s.turned(d).heading != opposite(s.heading),
        s.turned(d).heading == d || s.turned(d).heading == s.heading,
        s.turned(d).head == s.head,
        s.turned(d).body == s.body,
{
    match d {
        Direction::Left => {},
        Direction::Right => {},
        Direction::Up => {},
        Direction::Down => {},
    }
}

/// A step one way and a step back return the head to where it was, for
/// every cell, the wrapping ones included.
pub proof fn lemma_step_back_returns(p: (u8, u8), d: Direction)
    ensures
        moved(moved(p, d), opposite(d)) == p,
{
}

/// A step changes one coordinate by one, modulo 256: right and down add
/// one to x and y, left and up take one away.
pub proof fn lemma_step_moves_one_cell(p: (u8, u8))
    ensures
        moved(p, Direction::Right) == (((p.0 + 1) % 256) as u8, p.1),
        moved(p, Direction::Left) == (((p.0 + 255) % 256) as u8, p.1),
        moved(p, Direction::Down) == (p.0, ((p.1 + 1) % 256) as u8),
        moved(p, Direction::Up) == (p.0, ((p.1 + 255) % 256) as u8),
{
}

/// From a cell on the board, a step leaves the board exactly when the cell
/// lies on the edge in that direction: wrapping below zero lands far off the
/// board instead of on the other side.
pub proof fn lemma_leaves_board_only_at_edge(p: (u8, u8), d: Direction)
    requires
        on_board(p),
    ensures
        !on_board(moved(p, d)) <==> at_edge(p, d),
{
}

/// A step keeps the body's length; its first segment is the old head and
/// each further segment is the one before it in the old body.
pub proof fn lemma_body_follows_head(s: SnakeModel)
    ensures
        s.advanced().body.len() == s.body.len(),
        s.body.len() > 0 ==> s.advanced().body[0] == s.head,
        forall|i: int|
            0 <= i < s.body.len() - 1 ==> #[trigger] s.advanced().body[i + 1] == s.body[i],
        s.advanced().heading == s.heading,
{
}

/// After a step the first segment is never under the head, so the head
/// collides exactly when it is on any body segment at all.
pub proof fn lemma_step_leaves_neck(s: SnakeModel)
    ensures
        s.advanced().body.len() > 0 ==> s.advanced().body[0] != s.advanced().head,
        s.advanced().collides() <==> s.advanced().body.contains(s.advanced().head),
{
    let a = s.advanced();
    if a.body.contains(a.head) {
        let k = choose|k: int| 0 <= k < a.body.len() && a.body[k] == a.head;
        assert(segment_from(a.body, 1, a.head) || k == 0);
    }
    if a.collides() {
        let k = choose|k: int| 1 <= k < a.body.len() && #[trigger] a.body[k] == a.head;
        assert(a.body.contains(a.head));
    }
}

/// A snake stays a connected chain: a new snake is one, and turning,
/// stepping and growing keep it one.
pub proof fn lemma_chain_kept(s: SnakeModel, d: Direction)
    ensures
        (SnakeModel { head: s.head, heading: d, body: Seq::empty() }).chained(),
        s.chained() ==> s.turned(d).chained(),
        s.chained() ==> s.advanced().chained(),
        s.chained() ==> s.grown().chained(),
{
    if s.chained() {
        let a = s.advanced();
        assert(neighbours(a.head, s.head));
        if s.body.len() > 0 {
            assert forall|i: int| 0 <= i < a.body.len() - 1 implies linked(
                #[trigger] a.body[i],
                a.body[i + 1],
            ) by {
                if i == 0 {
                    assert(a.body[0] == s.head);
                    assert(a.body[1] == s.body[0]);
                } else {
                    assert(a.body[i] == s.body[i - 1]);
                    assert(a.body[i + 1] == s.body[i]);
                }
            }
        }
        let g = s.grown();
        assert forall|i: int| 0 <= i < g.body.len() - 1 implies linked(
            #[trigger] g.body[i],
            g.body[i + 1],
        ) by {
            if i < s.body.len() - 1 {
                assert(g.body[i] == s.body[i]);
                assert(g.body[i + 1] == s.body[i + 1]);
            } else {
                assert(g.body[i + 1] == s.body.last());
            }
        }
    }
}

/// Growing keeps every segment and adds one copy of the tail (of the head
/// for an empty body) at the end.
pub proof fn lemma_grow_doubles_tail(s: SnakeModel)
    ensures
        s.grown().body.len() == s.body.len() + 1,
        s.grown().body.subrange(0, s.body.len() as int) == s.body,
        s.grown().body.last() == if s.body.len() > 0 {
            s.body.last()
        } else {
            s.head
        },
        s.grown().head == s.head,
        s.grown().heading == s.heading,
{
    assert(s.grown().body.subrange(0, s.body.len() as int) =~= s.body);
}

} // verus!
