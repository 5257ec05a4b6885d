use vstd::prelude::*;

use crate::board::Board;
use crate::board::shuffle_cards;
use crate::board::spec_filled;
use crate::board::spec_room_target;
use crate::board::spec_unarmed_attack;
use crate::board::spec_weapon_attack;
use crate::selection::Selection;

verus! {

broadcast use {
    vstd::seq_lib::group_to_multiset_ensures,
    vstd::multiset::group_multiset_axioms,
    vstd::multiset::group_multiset_properties,
    crate::card::lemma_rank_value_range,
};

/// Fill the room when the cursor sits on the draw pile; otherwise nothing.
pub fn handle_enter_action(board: &mut Board)
    ensures
        old(board).selection == Some(Selection::DrawPile) ==> spec_filled(
            *old(board),
            *final(board),
        ),
        old(board).selection != Some(Selection::DrawPile) ==> *final(board) == *old(board),
        final(board).selection == old(board).selection,
        final(board).cards_in_play() == old(board).cards_in_play(),
{
    match board.selection {
        Some(Selection::DrawPile) => {
            board.fill_room();
        }
        _ => {},
    }
}

/// Equip the table card under the cursor: it leaves the table pile, the old
/// hand goes to the discard pile, and the card becomes the lone hand card.
pub fn handle_equip_action(board: &mut Board)
    ensures
        (match old(board).selection {
            Some(Selection::TablePile(i)) => if i < old(board).table_pile@.len() {
                &&& final(board).table_pile@ == old(board).table_pile@.remove(i as int)
                &&& final(board).discard_pile@ == old(board).discard_pile@ + old(
                    board,
                ).player_hand@
                &&& final(board).player_hand@ == seq![old(board).table_pile@[i as int]]
                &&& final(board).draw_pile@ == old(board).draw_pile@
                &&& final(board).player_hp == old(board).player_hp
            } else {
                *final(board) == *old(board)
            },
            _ => *final(board) == *old(board),
        }),
        final(board).selection == old(board).selection,
        final(board).cards_in_play() == old(board).cards_in_play(),
{
    if let Some(Selection::TablePile(i)) = board.selection {
        if i < board.table_pile.len() {
            let card = board.table_pile.remove(i);
            board.equip_weapon(card);
            proof {
                assert(old(board).table_pile@.contains(card)) by {
                    assert(old(board).table_pile@[i as int] == card);
                }
                assert(board.cards_in_play() =~= old(board).cards_in_play());
            }
        }
    }
}

/// Attack the table card under the cursor bare-handed.
pub fn handle_attack_action(board: &mut Board)
    ensures
        (match old(board).selection {
            Some(Selection::TablePile(i)) => if i < old(board).table_pile@.len() {
                spec_unarmed_attack(*old(board), *final(board), i as int)
            } else {
                *final(board) == *old(board)
            },
            _ => *final(board) == *old(board),
        }),
        final(board).selection == old(board).selection,
        final(board).cards_in_play() == old(board).cards_in_play(),
{
    if let Some(Selection::TablePile(i)) = board.selection {
        if i < board.table_pile.len() {
            board.attack_no_weapon(i);
        }
    }
}

/// Attack the table card under the cursor with the equipped weapon; nothing
/// happens without a weapon in hand.
pub fn handle_weapon_attack_action(board: &mut Board)
    ensures
        (match old(board).selection {
            Some(Selection::TablePile(i)) => if i < old(board).table_pile@.len() && old(
                board,
            ).player_hand@.len() > 0 {
                spec_weapon_attack(*old(board), *final(board), i as int)
            } else {
                *final(board) == *old(board)
            },
            _ => *final(board) == *old(board),
        }),
        final(board).selection == old(board).selection,
        final(board).cards_in_play() == old(board).cards_in_play(),
{
    if let Some(Selection::TablePile(i)) = board.selection {
        if i < board.table_pile.len() {
            board.attack_with_weapon(i);
        }
    }
}

/// Heal with the table card under the cursor: its full strength is added to
/// the hit points, with no upper bound, and the card is discarded.
pub fn handle_heal_action(board: &mut Board)
    requires
        (match old(board).selection {
            Some(Selection::TablePile(i)) => i < old(board).table_pile@.len() ==> old(
                board,
            ).player_hp <= u32::MAX - 14,
            _ => true,
        }),
    ensures
        (match old(board).selection {
            Some(Selection::TablePile(i)) => if i < old(board).table_pile@.len() {
                let target = old(board).table_pile@[i as int];
                &&& final(board).table_pile@ == old(board).table_pile@.remove(i as int)
                &&& final(board).discard_pile@ == old(board).discard_pile@.push(target)
                &&& final(board).player_hp == old(board).player_hp + target.rank.spec_value()
                &&& final(board).player_hand@ == old(board).player_hand@
                &&& final(board).draw_pile@ == old(board).draw_pile@
            } else {
                *final(board) == *old(board)
            },
            _ => *final(board) == *old(board),
        }),
        final(board).selection == old(board).selection,
        final(board).cards_in_play() == old(board).cards_in_play(),
{
    if let Some(Selection::TablePile(i)) = board.selection {
        if i < board.table_pile.len() {
            let card = board.table_pile.remove(i);
            board.player_hp = board.player_hp + card.rank.value();
            board.discard_pile.push(card);
            proof {
                assert(old(board).table_pile@.contains(card)) by {
                    assert(old(board).table_pile@[i as int] == card);
                }
                assert(board.cards_in_play() =~= old(board).cards_in_play());
            }
        }
    }
}

/// Discard: a table card under the cursor goes to the discard pile on its
/// own; with the cursor on the hand, the whole hand is discarded.
pub fn handle_discard_action(board: &mut Board)
    ensures
        (match old(board).selection {
            Some(Selection::TablePile(i)) => if i < old(board).table_pile@.len() {
                let target = old(board).table_pile@[i as int];
                &&& final(board).table_pile@ == old(board).table_pile@.remove(i as int)
                &&& final(board).discard_pile@ == old(board).discard_pile@.push(target)
                &&& final(board).player_hand@ == old(board).player_hand@
                &&& final(board).draw_pile@ == old(board).draw_pile@
                &&& final(board).player_hp == old(board).player_hp
            } else {
                *final(board) == *old(board)
            },
            Some(Selection::PlayerHand(_)) => {
                &&& final(board).discard_pile@ == old(board).discard_pile@ + old(
                    board,
                ).player_hand@
                &&& final(board).player_hand@ == Seq::<crate::card::Card>::empty()
                &&& final(board).table_pile@ == old(board).table_pile@
                &&& final(board).draw_pile@ == old(board).draw_pile@
                &&& final(board).player_hp == old(board).player_hp
            },
            _ => *final(board) == *old(board),
        }),
        final(board).selection == old(board).selection,
        final(board).cards_in_play() == old(board).cards_in_play(),
{
    match board.selection {
        Some(Selection::TablePile(i)) => {
            if i < board.table_pile.len() {
                let card = board.table_pile.remove(i);
                board.discard_pile.push(card);
                proof {
                    assert(old(board).table_pile@.contains(card)) by {
                        assert(old(board).table_pile@[i as int] == card);
                    }
                    assert(board.cards_in_play() =~= old(board).cards_in_play());
                }
            }
        }
        Some(Selection::PlayerHand(_)) => {
            board.discard_player_hand();
        }
        _ => {},
    }
}

/// Flee the room: the table pile is shuffled, up to 4 of its cards are moved
/// to the front of the draw pile (to be redrawn later), and the room is
/// refilled. No card enters or leaves circulation.
pub fn handle_run_action(board: &mut Board)
    ensures
        final(board).draw_pile@.to_multiset().add(final(board).table_pile@.to_multiset()) == old(
            board,
        ).draw_pile@.to_multiset().add(old(board).table_pile@.to_multiset()),
        final(board).discard_pile@ == old(board).discard_pile@,
        final(board).player_hand@ == old(board).player_hand@,
        final(board).player_hp == old(board).player_hp,
        final(board).selection == old(board).selection,
        final(board).cards_in_play() == old(board).cards_in_play(),
        old(board).table_pile@.len() <= 4 ==> final(board).table_pile@.len() == spec_room_target(
            old(board).table_pile@.len() as int,
            old(board).draw_pile@.len() as int,
        ),
{
    shuffle_cards(&mut board.table_pile);
    proof {
        assert(board.table_pile@.len() == board.table_pile@.to_multiset().len());
        assert(old(board).table_pile@.len() == old(board).table_pile@.to_multiset().len());
    }
    let ghost mid: Board = *board;
    let mut rounds: usize = 0;
    while rounds < 4
        invariant
            rounds <= 4,
            board.draw_pile@.to_multiset().add(board.table_pile@.to_multiset())
                == mid.draw_pile@.to_multiset().add(mid.table_pile@.to_multiset()),
            board.table_pile@.len() == (if mid.table_pile@.len() >= rounds {
                mid.table_pile@.len() - rounds
            } else {
                0
            }),
            board.draw_pile@.len() == mid.draw_pile@.len() + (mid.table_pile@.len()
                - board.table_pile@.len()),
            board.discard_pile@ == mid.discard_pile@,
            board.player_hand@ == mid.player_hand@,
            board.player_hp == mid.player_hp,
            board.selection == mid.selection,
        decreases 4 - rounds,
    {
        let ghost table_before: Seq<crate::card::Card> = board.table_pile@;
        let ghost draw_before: Seq<crate::card::Card> = board.draw_pile@;
        match board.table_pile.pop() {
            Some(card) => {
                board.draw_pile.insert(0, card);
                proof {
                    let n = table_before.len() as int;
                    assert(board.table_pile@ =~= table_before.remove(n - 1));
                    assert(table_before.to_multiset().count(card) > 0) by {
                        assert(table_before[n - 1] == card);
                        assert(table_before.contains(card));
                    }
                    assert(board.draw_pile@.to_multiset().add(board.table_pile@.to_multiset())
                        =~= draw_before.to_multiset().add(table_before.to_multiset()));
                }
            }
            None => {},
        }
        rounds += 1;
    }
    board.fill_room();
    proof {
        assert(board.cards_in_play() =~= old(board).cards_in_play());
        assert forall|c: crate::card::Card|
            board.draw_pile@.to_multiset().add(board.table_pile@.to_multiset()).count(c) == old(
                board,
            ).draw_pile@.to_multiset().add(old(board).table_pile@.to_multiset()).count(c) by {
            assert(board.cards_in_play().count(c) == old(board).cards_in_play().count(c));
        }
        assert(board.draw_pile@.to_multiset().add(board.table_pile@.to_multiset())
            =~= old(board).draw_pile@.to_multiset().add(old(board).table_pile@.to_multiset()));
    }
}

} // verus!
