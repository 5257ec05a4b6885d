use vstd::prelude::*;

use crate::board::Board;

verus! {

/// The UI cursor: which pile (and which card of it) is currently highlighted.
#[derive(Clone, Copy, PartialEq, Eq, Structural, Debug)]
pub enum Selection {
    DrawPile,
    TablePile(usize),
    PlayerHand(usize),
}

/// Where the cursor lands after a move to the left: within the table pile or
/// the hand it steps down one index, and at a zone's left edge it jumps to the
/// zone before it (hand to table, table to draw pile).
pub open spec fn spec_move_left(sel: Option<Selection>, table_len: int) -> Option<Selection> {
    match sel {
        None => Some(Selection::DrawPile),
        Some(Selection::DrawPile) => Some(Selection::DrawPile),
        Some(Selection::TablePile(i)) => if i > 0 {
            Some(Selection::TablePile((i - 1) as usize))
        } else {
            Some(Selection::DrawPile)
        },
        Some(Selection::PlayerHand(i)) => if i > 0 {
            Some(Selection::PlayerHand((i - 1) as usize))
        } else if table_len > 0 {
            Some(Selection::TablePile((table_len - 1) as usize))
        } else {
            Some(Selection::DrawPile)
        },
    }
}

/// Where the cursor lands after a move to the right: one index up within a
/// zone, and past a zone's right edge it jumps to the next non-empty zone.
pub open spec fn spec_move_right(sel: Option<Selection>, table_len: int, hand_len: int) -> Option<
    Selection,
> {
    match sel {
        None => Some(Selection::DrawPile),
        Some(Selection::DrawPile) => if table_len > 0 {
            Some(Selection::TablePile(0))
        } else if hand_len > 0 {
            Some(Selection::PlayerHand(0))
        } else {
            Some(Selection::DrawPile)
        },
        Some(Selection::TablePile(i)) => if i < table_len - 1 {
            Some(Selection::TablePile((i + 1) as usize))
        } else if hand_len > 0 {
            Some(Selection::PlayerHand(0))
        } else {
            Some(Selection::TablePile(i))
        },
        Some(Selection::PlayerHand(i)) => if i < hand_len - 1 {
            Some(Selection::PlayerHand((i + 1) as usize))
        } else {
            Some(Selection::PlayerHand(i))
        },
    }
}

/// Where the cursor lands after a move up: from the hand to the table pile
/// (clamping the index), from the table pile to the draw pile.
pub open spec fn spec_move_up(sel: Option<Selection>, table_len: int) -> Option<Selection> {
    match sel {
        None => Some(Selection::DrawPile),
        Some(Selection::PlayerHand(i)) => if table_len > 0 {
            if i < table_len - 1 {
                Some(Selection::TablePile(i))
            } else {
                Some(Selection::TablePile((table_len - 1) as usize))
            }
        } else {
            Some(Selection::DrawPile)
        },
        Some(Selection::TablePile(_)) => Some(Selection::DrawPile),
        Some(Selection::DrawPile) => sel,
    }
}

/// Where the cursor lands after a move down: from the draw pile to the table
/// pile, from the table pile to the hand (clamping the index).
pub open spec fn spec_move_down(sel: Option<Selection>, table_len: int, hand_len: int) -> Option<
    Selection,
> {
    match sel {
        None => Some(Selection::DrawPile),
        Some(Selection::DrawPile) => if table_len > 0 {
            Some(Selection::TablePile(0))
        } else {
            sel
        },
        Some(Selection::TablePile(i)) => if hand_len > 0 {
            if i < hand_len - 1 {
                Some(Selection::PlayerHand(i))
            } else {
                Some(Selection::PlayerHand((hand_len - 1) as usize))
            }
        } else {
            sel
        },
        Some(Selection::PlayerHand(_)) => sel,
    }
}

pub fn move_selection_left(board: &mut Board)
    ensures
        final(board).selection == spec_move_left(
            old(board).selection,
            old(board).table_pile@.len() as int,
        ),
        final(board).draw_pile@ == old(board).draw_pile@,
        final(board).table_pile@ == old(board).table_pile@,
        final(board).discard_pile@ == old(board).discard_pile@,
        final(board).player_hand@ == old(board).player_hand@,
        final(board).player_hp == old(board).player_hp,
{
    match board.selection {
        None => {
            board.selection = Some(Selection::DrawPile);
        }
        Some(Selection::DrawPile) => {}
        Some(Selection::TablePile(i)) => {
            if i > 0 {
                board.selection = Some(Selection::TablePile(i - 1));
            } else {
                board.selection = Some(Selection::DrawPile);
            }
        }
        Some(Selection::PlayerHand(i)) => {
            if i > 0 {
                board.selection = Some(Selection::PlayerHand(i - 1));
            } else if !board.table_pile.is_empty() {
                board.selection = Some(Selection::TablePile(board.table_pile.len() - 1));
            } else {
                board.selection = Some(Selection::DrawPile);
            }
        }
    }
}

pub fn move_selection_right(board: &mut Board)
    requires
        (old(board).selection matches Some(Selection::TablePile(_)))
            ==> old(board).table_pile@.len() > 0,
        (old(board).selection matches Some(Selection::PlayerHand(_)))
            ==> old(board).player_hand@.len() > 0,
    ensures
        final(board).selection == spec_move_right(
            old(board).selection,
            old(board).table_pile@.len() as int,
            old(board).player_hand@.len() as int,
        ),
        final(board).draw_pile@ == old(board).draw_pile@,
        final(board).table_pile@ == old(board).table_pile@,
        final(board).discard_pile@ == old(board).discard_pile@,
        final(board).player_hand@ == old(board).player_hand@,
        final(board).player_hp == old(board).player_hp,
{
    match board.selection {
        None => {
            board.selection = Some(Selection::DrawPile);
        }
        Some(Selection::DrawPile) => {
            if !board.table_pile.is_empty() {
                board.selection = Some(Selection::TablePile(0));
            } else if !board.player_hand.is_empty() {
                board.selection = Some(Selection::PlayerHand(0));
            }
        }
        Some(Selection::TablePile(i)) => {
            if i < board.table_pile.len() - 1 {
                board.selection = Some(Selection::TablePile(i + 1));
            } else if !board.player_hand.is_empty() {
                board.selection = Some(Selection::PlayerHand(0));
            }
        }
        Some(Selection::PlayerHand(i)) => {
            if i < board.player_hand.len() - 1 {
                board.selection = Some(Selection::PlayerHand(i + 1));
            }
        }
    }
}

pub fn move_selection_up(board: &mut Board)
    ensures
        final(board).selection == spec_move_up(
            old(board).selection,
            old(board).table_pile@.len() as int,
        ),
        final(board).draw_pile@ == old(board).draw_pile@,
        final(board).table_pile@ == old(board).table_pile@,
        final(board).discard_pile@ == old(board).discard_pile@,
        final(board).player_hand@ == old(board).player_hand@,
        final(board).player_hp == old(board).player_hp,
{
    match board.selection {
        None => {
            board.selection = Some(Selection::DrawPile);
        }
        Some(Selection::PlayerHand(i)) => {
            if !board.table_pile.is_empty() {
                let last = board.table_pile.len() - 1;
                let new_index = if i < last {
                    i
                } else {
                    last
                };
                board.selection = Some(Selection::TablePile(new_index));
            } else {
                board.selection = Some(Selection::DrawPile);
            }
        }
        Some(Selection::TablePile(_)) => {
            board.selection = Some(Selection::DrawPile);
        }
        _ => {}
    }
}

pub fn move_selection_down(board: &mut Board)
    ensures
        final(board).selection == spec_move_down(
            old(board).selection,
            old(board).table_pile@.len() as int,
            old(board).player_hand@.len() as int,
        ),
        final(board).draw_pile@ == old(board).draw_pile@,
        final(board).table_pile@ == old(board).table_pile@,
        final(board).discard_pile@ == old(board).discard_pile@,
        final(board).player_hand@ == old(board).player_hand@,
        final(board).player_hp == old(board).player_hp,
{
    match board.selection {
        None => {
            board.selection = Some(Selection::DrawPile);
        }
        Some(Selection::DrawPile) => {
            if !board.table_pile.is_empty() {
                board.selection = Some(Selection::TablePile(0));
            }
        }
        Some(Selection::TablePile(i)) => {
            if !board.player_hand.is_empty() {
                let last = board.player_hand.len() - 1;
                let new_index = if i < last {
                    i
                } else {
                    last
                };
                board.selection = Some(Selection::PlayerHand(new_index));
            }
        }
        _ => {}
    }
}

} // verus!
