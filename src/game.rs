//! The command layer: a cursor over the tableau, a selected source cell and
//! a focused foundation, driven one command at a time.

use vstd::prelude::*;

use crate::board::{added_to_objective, fresh_deal, moved, Board};
use crate::deck::{ids, Card};

verus! {

#[derive(Debug, Copy, Clone, PartialEq, Eq, Structural)]
pub enum Direction {
    Up,
    Down,
    Left,
    Right,
}

/// One step of play, as issued by the front end.
#[derive(Debug, Copy, Clone, PartialEq, Eq, Structural)]
pub enum Command {
    MoveCursor(Direction),
    NextFoundation,
    PreviousFoundation,
    ToggleSelect,
    CommitToFoundation,
    DrawFromDeck,
    RetrieveFromDeck,
    Quit,
}

/// The length of column `x`, or 0 when there is no such column.
pub open spec fn col_len(t: Seq<Seq<Card>>, x: int) -> int {
    if 0 <= x < t.len() {
        t[x].len() as int
    } else {
        0
    }
}

/// The row kept when arriving on a column of length `len` from row `row`:
/// unchanged when it lies inside the column, else the last row, or 0 for an
/// empty column.
pub open spec fn clamp_row(len: int, row: int) -> int {
    if len <= row {
        if len > 0 {
            len - 1
        } else {
            0
        }
    } else {
        row
    }
}

/// Where the cursor `c` goes on tableau `t` when moved one step towards `d`.
pub open spec fn cursor_after(t: Seq<Seq<Card>>, c: (usize, usize), d: Direction) -> (usize, usize) {
    match d {
        Direction::Up => if c.1 > 0 {
            (c.0, (c.1 - 1) as usize)
        } else {
            c
        },
        Direction::Down => if c.1 + 1 < col_len(t, c.0 as int) {
            (c.0, (c.1 + 1) as usize)
        } else {
            c
        },
        Direction::Left => if c.0 > 0 {
            ((c.0 - 1) as usize, clamp_row(col_len(t, c.0 - 1), c.1 as int) as usize)
        } else {
            c
        },
        Direction::Right => if c.0 + 1 < t.len() {
            ((c.0 + 1) as usize, clamp_row(col_len(t, c.0 + 1), c.1 as int) as usize)
        } else {
            c
        },
    }
}

/// The cursor `c` after `n` steps towards `d`.
pub open spec fn cursor_steps(t: Seq<Seq<Card>>, c: (usize, usize), d: Direction, n: nat) -> (
    usize,
    usize,
)
    decreases n,
{
    if n == 0 {
        c
    } else {
        cursor_after(t, cursor_steps(t, c, d, (n - 1) as nat), d)
    }
}

/// The cursor `c` stands on a card of tableau `t`, or on row 0 of an empty
/// column.
pub open spec fn cursor_valid(t: Seq<Seq<Card>>, c: (usize, usize)) -> bool {
    &&& c.0 < t.len()
    &&& (c.1 < t[c.0 as int].len() || (t[c.0 as int].len() == 0 && c.1 == 0))
}

/// The cursor `c` cannot go further towards `d`: the top row, the last row
/// of its column, the first column or the last column.
pub open spec fn at_boundary(t: Seq<Seq<Card>>, c: (usize, usize), d: Direction) -> bool {
    match d {
        Direction::Up => c.1 == 0,
        Direction::Down => c.1 + 1 >= col_len(t, c.0 as int),
        Direction::Left => c.0 == 0,
        Direction::Right => c.0 + 1 >= t.len(),
    }
}

/// Moving sideways onto a column no longer than the cursor's row puts the
/// cursor on that column's last card, or on row 0 when it is empty, and the
/// cursor then stands on a valid cell; moving up from the top row or down
/// from the last row changes nothing.
pub proof fn lemma_cursor_clamping(t: Seq<Seq<Card>>, c: (usize, usize))
    requires
        t.len() == 7,
        forall|i: int| 0 <= i < 7 ==> (#[trigger] t[i]).len() <= usize::MAX,
    ensures
        c.0 > 0 && col_len(t, c.0 - 1) <= c.1 ==> cursor_after(t, c, Direction::Left) == (
            (c.0 - 1) as usize,
            if col_len(t, c.0 - 1) > 0 {
                (col_len(t, c.0 - 1) - 1) as usize
            } else {
                0usize
            },
        ),
        c.0 + 1 < t.len() && col_len(t, c.0 + 1) <= c.1 ==> cursor_after(t, c, Direction::Right)
            == (
            (c.0 + 1) as usize,
            if col_len(t, c.0 + 1) > 0 {
                (col_len(t, c.0 + 1) - 1) as usize
            } else {
                0usize
            },
        ),
        0 < c.0 <= t.len() ==> cursor_valid(t, cursor_after(t, c, Direction::Left)),
        c.0 + 1 < t.len() ==> cursor_valid(t, cursor_after(t, c, Direction::Right)),
        c.1 == 0 ==> cursor_after(t, c, Direction::Up) == c,
        c.1 + 1 >= col_len(t, c.0 as int) ==> cursor_after(t, c, Direction::Down) == c,
{
}

/// At a boundary, moving towards it any number of times leaves the cursor
/// where it is.
pub proof fn lemma_cursor_boundary_idempotent(
    t: Seq<Seq<Card>>,
    c: (usize, usize),
    d: Direction,
    n: nat,
)
    requires
        at_boundary(t, c, d),
    ensures
        cursor_steps(t, c, d, n) == c,
    decreases n,
{
    if n > 0 {
        lemma_cursor_boundary_idempotent(t, c, d, (n - 1) as nat);
    }
}

/// Once a move towards `d` has brought the cursor to a boundary, further
/// moves towards `d` leave it there.
pub proof fn lemma_cursor_settles(t: Seq<Seq<Card>>, c: (usize, usize), d: Direction, n: nat)
    requires
        at_boundary(t, cursor_after(t, c, d), d),
        n >= 1,
    ensures
        cursor_steps(t, c, d, n) == cursor_after(t, c, d),
    decreases n,
{
    if n > 1 {
        lemma_cursor_settles(t, c, d, (n - 1) as nat);
    } else {
        assert(cursor_steps(t, c, d, 0) == c);
    }
}

/// A game in progress: the board, the cursor as (column, row), the armed
/// selection if any, and the focused foundation.
pub struct Game {
    pub board: Board,
    pub should_quit: bool,
    pub selected: Option<(usize, usize)>,
    pub cursor: (usize, usize),
    pub objective_selected: u16,
}

impl Game {
    /// The board is well formed and the cursor, the selection and the focused
    /// foundation name a column and a foundation that exist.
    pub open spec fn wf(&self) -> bool {
        &&& self.board.wf()
        &&& self.cursor.0 < 7
        &&& self.objective_selected < 4
        &&& (self.selected matches Some(s) ==> s.0 < 7)
    }

    /// The cursor stands on a card, or on row 0 of an empty column.
    pub open spec fn cursor_ok(&self) -> bool {
        cursor_valid(self.board.tableau(), self.cursor)
    }

    /// Only the cursor changed, by one step towards `d`.
    pub open spec fn moved_cursor(self, next: Game, d: Direction) -> bool {
        &&& next.cursor == cursor_after(self.board.tableau(), self.cursor, d)
        &&& next.board == self.board
        &&& next.selected == self.selected
        &&& next.objective_selected == self.objective_selected
        &&& next.should_quit == self.should_quit
    }

    /// Whether toggling the selection onto the cursor moves the selected run:
    /// always onto an empty cell or from an empty one, else only when the
    /// selected card may stack on the card under the cursor.
    pub open spec fn selection_move_allowed(self) -> bool {
        let s = self.selected.unwrap();
        match (
            self.board.card_at(s.0 as int, s.1 as int),
            self.board.card_at(self.cursor.0 as int, self.cursor.1 as int),
        ) {
            (Some(a), Some(b)) => a.spec_can_move_over(b),
            _ => true,
        }
    }

    /// Toggling the selection: with none, the cursor becomes the selection;
    /// with one, the selected run moves onto the cursor's column when allowed,
    /// and the selection is cleared either way.
    pub open spec fn toggled(self, next: Game) -> bool {
        &&& next.cursor == self.cursor
        &&& next.objective_selected == self.objective_selected
        &&& next.should_quit == self.should_quit
        &&& match self.selected {
            None => next.selected == Some(self.cursor) && next.board == self.board,
            Some(s) => {
                &&& next.selected.is_none()
                &&& next.board.deck@ == self.board.deck@
                &&& next.board.foundations() == self.board.foundations()
                &&& next.board.tableau() == if self.selection_move_allowed() {
                    moved(self.board.tableau(), s.0 as int, s.1 as int, self.cursor.0 as int)
                } else {
                    self.board.tableau()
                }
            },
        }
    }

    /// Committing the card under the cursor to the focused foundation, then
    /// pulling the row back onto the column if it shrank below the cursor.
    pub open spec fn committed(self, next: Game) -> bool {
        let (t, f) = added_to_objective(
            self.board.tableau(),
            self.board.foundations(),
            self.cursor.0 as int,
            self.cursor.1 as int,
            self.objective_selected as int,
        );
        let len = t[self.cursor.0 as int].len() as int;
        &&& next.board.tableau() == t
        &&& next.board.foundations() == f
        &&& next.board.deck@ == self.board.deck@
        &&& next.cursor == (
            self.cursor.0,
            if len > 0 && self.cursor.1 > len - 1 {
                (len - 1) as usize
            } else {
                self.cursor.1
            },
        )
        &&& next.selected == self.selected
        &&& next.objective_selected == self.objective_selected
        &&& next.should_quit == self.should_quit
    }

    /// Drawing cycles a non-empty draw pile; on an empty one nothing happens.
    pub open spec fn drew(self, next: Game) -> bool {
        &&& next.board.deck@ == if self.board.deck@.len() > 0 {
            crate::deck::rotated(self.board.deck@)
        } else {
            self.board.deck@
        }
        &&& next.board.tableau() == self.board.tableau()
        &&& next.board.foundations() == self.board.foundations()
        &&& next.cursor == self.cursor
        &&& next.selected == self.selected
        &&& next.objective_selected == self.objective_selected
        &&& next.should_quit == self.should_quit
    }

    /// Whether the top card of the draw pile may be dealt onto the cursor's
    /// column: the pile is not empty, and the cursor is on an empty cell or
    /// on a card that the top card may stack on.
    pub open spec fn retrieve_allowed(self) -> bool {
        &&& self.board.deck@.len() > 0
        &&& match self.board.card_at(self.cursor.0 as int, self.cursor.1 as int) {
            None => true,
            Some(c) => self.board.deck@.last().spec_can_move_over(c),
        }
    }

    /// Retrieving: when allowed, the top card of the draw pile goes on top of
    /// the cursor's column; otherwise nothing happens.
    pub open spec fn retrieved(self, next: Game) -> bool {
        let t = self.board.tableau();
        let d = self.board.deck@;
        let x = self.cursor.0 as int;
        &&& if self.retrieve_allowed() {
            &&& next.board.deck@ == d.drop_last()
            &&& next.board.tableau() == t.update(x, t[x].push(d.last()))
        } else {
            &&& next.board.deck@ == d
            &&& next.board.tableau() == t
        }
        &&& next.board.foundations() == self.board.foundations()
        &&& next.cursor == self.cursor
        &&& next.selected == self.selected
        &&& next.objective_selected == self.objective_selected
        &&& next.should_quit == self.should_quit
    }

    /// A fresh game: a fresh deal, the cursor on the first card, nothing
    /// selected and the first foundation focused.
    pub fn new() -> (g: Game)
        ensures
            g.wf(),
            g.cursor_ok(),
            fresh_deal(g.board),
            g.cursor == (0usize, 0usize),
            g.selected.is_none(),
            g.objective_selected == 0,
            !g.should_quit,
    {
        Game {
            board: Board::new(),
            should_quit: false,
            selected: None,
            cursor: (0, 0),
            objective_selected: 0,
        }
    }

    pub fn on_up(&mut self)
        requires
            old(self).wf(),
        ensures
            final(self).wf(),
            old(self).cursor_ok() ==> final(self).cursor_ok(),
            old(self).moved_cursor(*final(self), Direction::Up),
    {
        if self.cursor.1 > 0 {
            self.cursor.1 = self.cursor.1 - 1;
        }
    }

    pub fn on_down(&mut self)
        requires
            old(self).wf(),
        ensures
            final(self).wf(),
            old(self).cursor_ok() ==> final(self).cursor_ok(),
            old(self).moved_cursor(*final(self), Direction::Down),
    {
        let len = self.board.game_cols[self.cursor.0].len();
        if len > 0 && self.cursor.1 < len - 1 {
            self.cursor.1 = self.cursor.1 + 1;
        }
    }

    pub fn on_left(&mut self)
        requires
            old(self).wf(),
        ensures
            final(self).wf(),
            old(self).cursor_ok() ==> final(self).cursor_ok(),
            old(self).moved_cursor(*final(self), Direction::Left),
    {
        if self.cursor.0 > 0 {
            let len = self.board.game_cols[self.cursor.0 - 1].len();
            if len <= self.cursor.1 {
                self.cursor.1 = if len > 0 {
                    len - 1
                } else {
                    0
                };
            }
            self.cursor.0 = self.cursor.0 - 1;
        }
    }

    pub fn on_right(&mut self)
        requires
            old(self).wf(),
        ensures
            final(self).wf(),
            old(self).cursor_ok() ==> final(self).cursor_ok(),
            old(self).moved_cursor(*final(self), Direction::Right),
    {
        if self.cursor.0 < self.board.game_cols.len() - 1 {
            let len = self.board.game_cols[self.cursor.0 + 1].len();
            if len <= self.cursor.1 {
                self.cursor.1 = if len > 0 {
                    len - 1
                } else {
                    0
                };
            }
            self.cursor.0 = self.cursor.0 + 1;
        }
    }

    /// Focuses the next foundation, wrapping from the last to the first.
    pub fn on_tab(&mut self)
        ensures
            final(self).objective_selected == if old(self).objective_selected < 3 {
                old(self).objective_selected + 1
            } else {
                0
            },
            final(self).board == old(self).board,
            final(self).cursor == old(self).cursor,
            final(self).selected == old(self).selected,
            final(self).should_quit == old(self).should_quit,
    {
        if self.objective_selected < 3 {
            self.objective_selected = self.objective_selected + 1;
        } else {
            self.objective_selected = 0;
        }
    }

    /// Focuses the previous foundation, wrapping from the first to the last.
    pub fn on_backtab(&mut self)
        ensures
            final(self).objective_selected == if old(self).objective_selected > 0 {
                old(self).objective_selected - 1
            } else {
                3
            },
            final(self).board == old(self).board,
            final(self).cursor == old(self).cursor,
            final(self).selected == old(self).selected,
            final(self).should_quit == old(self).should_quit,
    {
        if self.objective_selected > 0 {
            self.objective_selected = self.objective_selected - 1;
        } else {
            self.objective_selected = 3;
        }
    }

    /// Arms a selection, or commits (or drops) the armed one.
    pub fn on_select(&mut self)
        requires
            old(self).wf(),
        ensures
            final(self).wf(),
            old(self).cursor_ok() ==> final(self).cursor_ok(),
            old(self).toggled(*final(self)),
            final(self).board.card_ids() == old(self).board.card_ids(),
    {
        match self.selected {
            None => {
                self.selected = Some(self.cursor);
            },
            Some(selected) => {
                let allowed = match self.board.get_card(selected.0, selected.1) {
                    Some(card_from) => match self.board.get_card(self.cursor.0, self.cursor.1) {
                        Some(card_to) => card_from.can_move_over(card_to),
                        None => true,
                    },
                    None => true,
                };
                if allowed {
                    self.board.move_card(selected, self.cursor);
                }
                self.selected = None;
            },
        }
    }

    /// Puts the card under the cursor on the focused foundation when it fits,
    /// then keeps the cursor on its column.
    pub fn on_enter(&mut self)
        requires
            old(self).wf(),
        ensures
            final(self).wf(),
            old(self).cursor_ok() ==> final(self).cursor_ok(),
            old(self).committed(*final(self)),
            final(self).board.card_ids() == old(self).board.card_ids(),
    {
        self.board.add_to_objective(self.cursor, self.objective_selected as usize);
        let len = self.board.game_cols[self.cursor.0].len();
        if len > 0 && self.cursor.1 > len - 1 {
            self.cursor.1 = len - 1;
        }
    }

    /// Cycles the draw pile when it holds a card.
    pub fn on_draw_card(&mut self)
        requires
            old(self).wf(),
        ensures
            final(self).wf(),
            old(self).cursor_ok() ==> final(self).cursor_ok(),
            old(self).drew(*final(self)),
            final(self).board.card_ids() == old(self).board.card_ids(),
    {
        if !self.board.deck.is_empty() {
            self.board.draw_card();
        }
    }

    /// Deals the top card of the draw pile onto the cursor's column when the
    /// cursor is on an empty cell, or on a card the top card may stack on.
    pub fn on_retrieve_card(&mut self)
        requires
            old(self).wf(),
        ensures
            final(self).wf(),
            old(self).cursor_ok() ==> final(self).cursor_ok(),
            old(self).retrieved(*final(self)),
            final(self).board.card_ids() == old(self).board.card_ids(),
    {
        let cursor = self.cursor;
        let allowed = match self.board.get_card(cursor.0, cursor.1) {
            Some(current) => match self.board.deck.last() {
                Some(top) => top.can_move_over(current),
                None => false,
            },
            None => !self.board.deck.is_empty(),
        };
        if allowed {
            let ghost t = self.board.tableau();
            let ghost before = self.board.card_ids();
            let ghost d = self.board.deck@;
            let card = self.board.deck.deal().unwrap();
            self.board.game_cols[cursor.0].push(card);
            proof {
                let x = cursor.0 as int;
                assert(self.board.tableau() =~= t.update(x, t[x].push(card)));
                crate::board::lemma_piles_ids_push_card(t, x, card);
                assert(ids(d) == ids(d.drop_last()).insert(card.id()));
                assert(self.board.card_ids() =~= before);
            }
        }
    }

    /// Carries out one command.
    pub fn apply(&mut self, command: Command)
        requires
            old(self).wf(),
        ensures
            final(self).wf(),
            old(self).cursor_ok() ==> final(self).cursor_ok(),
            final(self).board.card_ids() == old(self).board.card_ids(),
            match command {
                Command::MoveCursor(d) => old(self).moved_cursor(*final(self), d),
                Command::NextFoundation => final(self).objective_selected == (
                old(self).objective_selected + 1) % 4 && final(self).board == old(self).board
                    && final(self).cursor == old(self).cursor && final(self).selected == old(
                    self,
                ).selected && final(self).should_quit == old(self).should_quit,
                Command::PreviousFoundation => final(self).objective_selected == (
                old(self).objective_selected + 3) % 4 && final(self).board == old(self).board
                    && final(self).cursor == old(self).cursor && final(self).selected == old(
                    self,
                ).selected && final(self).should_quit == old(self).should_quit,
                Command::ToggleSelect => old(self).toggled(*final(self)),
                Command::CommitToFoundation => old(self).committed(*final(self)),
                Command::DrawFromDeck => old(self).drew(*final(self)),
                Command::RetrieveFromDeck => old(self).retrieved(*final(self)),
                Command::Quit => final(self).should_quit && final(self).board == old(self).board
                    && final(self).cursor == old(self).cursor && final(self).selected == old(
                    self,
                ).selected && final(self).objective_selected == old(self).objective_selected,
            },
    {
        match command {
            Command::MoveCursor(Direction::Up) => self.on_up(),
            Command::MoveCursor(Direction::Down) => self.on_down(),
            Command::MoveCursor(Direction::Left) => self.on_left(),
            Command::MoveCursor(Direction::Right) => self.on_right(),
            Command::NextFoundation => self.on_tab(),
            Command::PreviousFoundation => self.on_backtab(),
            Command::ToggleSelect => self.on_select(),
            Command::CommitToFoundation => self.on_enter(),
            Command::DrawFromDeck => self.on_draw_card(),
            Command::RetrieveFromDeck => self.on_retrieve_card(),
            Command::Quit => {
                self.should_quit = true;
            },
        }
    }
}

} // verus!
