use scoundrel::actions::{
    handle_attack_action, handle_discard_action, handle_enter_action, handle_equip_action,
    handle_heal_action, handle_run_action, handle_weapon_attack_action,
};
use scoundrel::board::{game_status, new_game, Board, GameStatus};
use scoundrel::card::{high_diamond, Card, Color, Rank};
use scoundrel::selection::{
    move_selection_down, move_selection_left, move_selection_right, move_selection_up, Selection,
};

fn card(color: Color, rank: Rank) -> Card {
    Card::new(color, rank)
}

fn count_card(pile: &Vec<Card>, wanted: &Card) -> usize {
    pile.iter().filter(|c| *c == wanted).count()
}

fn total_cards(board: &Board) -> usize {
    board.draw_pile.len() + board.table_pile.len() + board.discard_pile.len()
        + board.player_hand.len()
}

fn all_cards(board: &Board) -> Vec<Card> {
    let mut all = Vec::new();
    all.extend_from_slice(&board.draw_pile);
    all.extend_from_slice(&board.table_pile);
    all.extend_from_slice(&board.discard_pile);
    all.extend_from_slice(&board.player_hand);
    all
}

fn same_multiset(a: &Vec<Card>, b: &Vec<Card>) -> bool {
    a.len() == b.len() && a.iter().all(|c| count_card(a, c) == count_card(b, c))
}

#[test]
fn rank_values_run_2_to_14() {
    assert_eq!(Rank::Two.value(), 2);
    assert_eq!(Rank::Three.value(), 3);
    assert_eq!(Rank::Four.value(), 4);
    assert_eq!(Rank::Five.value(), 5);
    assert_eq!(Rank::Six.value(), 6);
    assert_eq!(Rank::Seven.value(), 7);
    assert_eq!(Rank::Eight.value(), 8);
    assert_eq!(Rank::Nine.value(), 9);
    assert_eq!(Rank::Ten.value(), 10);
    assert_eq!(Rank::Jack.value(), 11);
    assert_eq!(Rank::Queen.value(), 12);
    assert_eq!(Rank::King.value(), 13);
    assert_eq!(Rank::Ace.value(), 14);
}

#[test]
fn deck_has_52_distinct_cards() {
    let deck = Card::deck();
    assert_eq!(deck.len(), 52);
    for c in deck.iter() {
        assert_eq!(count_card(&deck, c), 1);
    }
}

#[test]
fn setup_shuffles_a_full_deck_into_the_draw_pile() {
    let mut board = Board::new();
    board.setup();
    assert_eq!(board.draw_pile.len(), 52);
    // Whatever order the shuffle picked, the same 52 cards are all there.
    assert!(same_multiset(&board.draw_pile, &Card::deck()));
    assert_eq!(board.player_hp, 20);
    assert!(board.table_pile.is_empty());
    assert!(board.discard_pile.is_empty());
    assert!(board.player_hand.is_empty());
}

#[test]
fn initial_filter_leaves_48_distinct_cards() {
    let mut board = Board::new();
    board.setup();
    board.filter_draw_pile(|c: Card| high_diamond(&c));
    assert_eq!(board.draw_pile.len(), 48);
    for c in board.draw_pile.iter() {
        assert_eq!(count_card(&board.draw_pile, c), 1);
        assert!(!(matches!(c.color, Color::Diamond) && c.rank.value() > 10));
    }
}

#[test]
fn new_game_deals_a_room_of_4_from_48() {
    let board = new_game();
    assert_eq!(board.player_hp, 20);
    assert_eq!(board.table_pile.len(), 4);
    assert_eq!(board.draw_pile.len(), 44);
    assert!(board.discard_pile.is_empty());
    assert!(board.player_hand.is_empty());
    assert!(board.selection.is_none());
    assert_eq!(total_cards(&board), 48);
}

#[test]
fn fill_room_stops_at_4() {
    let mut board = Board::new();
    for _ in 0..6 {
        board.draw_pile.push(card(Color::Heart, Rank::Two));
    }
    board.fill_room();
    assert_eq!(board.table_pile.len(), 4);
    assert_eq!(board.draw_pile.len(), 2);
}

#[test]
fn fill_room_stops_when_the_draw_pile_runs_out() {
    let mut board = Board::new();
    board.table_pile.push(card(Color::Club, Rank::Five));
    board.draw_pile.push(card(Color::Heart, Rank::Two));
    board.draw_pile.push(card(Color::Spade, Rank::Three));
    board.fill_room();
    assert_eq!(board.table_pile.len(), 3);
    assert_eq!(board.draw_pile.len(), 0);
}

#[test]
fn fill_room_is_a_no_op_when_full() {
    let mut board = Board::new();
    for _ in 0..4 {
        board.table_pile.push(card(Color::Club, Rank::Five));
    }
    board.draw_pile.push(card(Color::Heart, Rank::Two));
    board.fill_room();
    assert_eq!(board.table_pile.len(), 4);
    assert_eq!(board.draw_pile.len(), 1);
}

#[test]
fn draw_card_pops_the_top() {
    let mut board = Board::new();
    board.draw_pile.push(card(Color::Heart, Rank::Two));
    board.draw_pile.push(card(Color::Spade, Rank::Ace));
    let drawn = board.draw_card();
    assert_eq!(drawn, Some(card(Color::Spade, Rank::Ace)));
    assert_eq!(board.draw_pile.len(), 1);
    board.draw_card();
    assert_eq!(board.draw_card(), None);
}

#[test]
fn strong_weapon_fully_negates_a_weak_monster() {
    let mut board = Board::new();
    board.player_hand.push(card(Color::Club, Rank::Ten));
    board.table_pile.push(card(Color::Heart, Rank::Seven));
    board.attack_with_weapon(0);
    assert_eq!(board.player_hp, 20);
    assert_eq!(board.table_pile.len(), 0);
    assert_eq!(board.player_hand.len(), 2);
}

#[test]
fn weapon_rank_10_against_ace_costs_4_hp() {
    let mut board = Board::new();
    board.player_hand.push(card(Color::Club, Rank::Ten));
    board.table_pile.push(card(Color::Heart, Rank::Ace));
    board.attack_with_weapon(0);
    assert_eq!(board.player_hp, 16);
    // The spent monster accumulates behind the weapon.
    assert_eq!(board.player_hand[0], card(Color::Club, Rank::Ten));
    assert_eq!(board.player_hand[1], card(Color::Heart, Rank::Ace));
}

#[test]
fn attack_with_weapon_needs_a_weapon_and_a_valid_index() {
    let mut board = Board::new();
    board.table_pile.push(card(Color::Heart, Rank::Ace));
    board.attack_with_weapon(0);
    assert_eq!(board.player_hp, 20);
    assert_eq!(board.table_pile.len(), 1);
    board.player_hand.push(card(Color::Club, Rank::Ten));
    board.attack_with_weapon(5);
    assert_eq!(board.player_hp, 20);
    assert_eq!(board.table_pile.len(), 1);
    assert_eq!(board.player_hand.len(), 1);
}

#[test]
fn bare_handed_attack_on_a_king_leaves_7_hp() {
    let mut board = Board::new();
    board.table_pile.push(card(Color::Spade, Rank::King));
    board.attack_no_weapon(0);
    assert_eq!(board.player_hp, 7);
    assert_eq!(board.table_pile.len(), 0);
    assert_eq!(board.discard_pile.len(), 1);
}

#[test]
fn hp_saturates_at_zero() {
    let mut board = Board::new();
    board.player_hp = 5;
    board.table_pile.push(card(Color::Spade, Rank::King));
    board.attack_no_weapon(0);
    assert_eq!(board.player_hp, 0);
}

#[test]
fn attack_no_weapon_ignores_a_bad_index() {
    let mut board = Board::new();
    board.table_pile.push(card(Color::Spade, Rank::King));
    board.attack_no_weapon(1);
    assert_eq!(board.player_hp, 20);
    assert_eq!(board.table_pile.len(), 1);
}

#[test]
fn heal_with_a_9_raises_hp_to_29() {
    let mut board = Board::new();
    board.table_pile.push(card(Color::Heart, Rank::Nine));
    board.selection = Some(Selection::TablePile(0));
    handle_heal_action(&mut board);
    // No upper bound: hit points may exceed the starting 20.
    assert_eq!(board.player_hp, 29);
    assert_eq!(board.table_pile.len(), 0);
    assert_eq!(board.discard_pile.len(), 1);
}

#[test]
fn equip_clears_the_hand_first() {
    let mut board = Board::new();
    board.player_hand.push(card(Color::Club, Rank::Two));
    board.player_hand.push(card(Color::Club, Rank::Three));
    board.equip_weapon(card(Color::Spade, Rank::Queen));
    assert_eq!(board.player_hand.len(), 1);
    assert_eq!(board.player_hand[0], card(Color::Spade, Rank::Queen));
    assert_eq!(board.discard_pile.len(), 2);
}

#[test]
fn discard_player_hand_moves_everything() {
    let mut board = Board::new();
    board.discard_pile.push(card(Color::Heart, Rank::Two));
    board.player_hand.push(card(Color::Club, Rank::Two));
    board.player_hand.push(card(Color::Club, Rank::Three));
    board.discard_player_hand();
    assert!(board.player_hand.is_empty());
    assert_eq!(board.discard_pile.len(), 3);
}

#[test]
fn handle_equip_takes_the_selected_table_card() {
    let mut board = Board::new();
    board.table_pile.push(card(Color::Heart, Rank::Two));
    board.table_pile.push(card(Color::Spade, Rank::Queen));
    board.player_hand.push(card(Color::Club, Rank::Three));
    board.selection = Some(Selection::TablePile(1));
    handle_equip_action(&mut board);
    assert_eq!(board.table_pile.len(), 1);
    assert_eq!(board.player_hand.len(), 1);
    assert_eq!(board.player_hand[0], card(Color::Spade, Rank::Queen));
    assert_eq!(board.discard_pile.len(), 1);
}

#[test]
fn handle_actions_ignore_a_stale_index() {
    let mut board = Board::new();
    board.table_pile.push(card(Color::Heart, Rank::Two));
    board.selection = Some(Selection::TablePile(3));
    handle_equip_action(&mut board);
    handle_attack_action(&mut board);
    handle_weapon_attack_action(&mut board);
    handle_heal_action(&mut board);
    handle_discard_action(&mut board);
    assert_eq!(board.table_pile.len(), 1);
    assert_eq!(board.player_hp, 20);
    assert!(board.discard_pile.is_empty());
}

#[test]
fn handle_discard_moves_one_table_card() {
    let mut board = Board::new();
    board.table_pile.push(card(Color::Heart, Rank::Two));
    board.table_pile.push(card(Color::Spade, Rank::Queen));
    board.selection = Some(Selection::TablePile(0));
    handle_discard_action(&mut board);
    assert_eq!(board.table_pile.len(), 1);
    assert_eq!(board.table_pile[0], card(Color::Spade, Rank::Queen));
    assert_eq!(board.discard_pile, vec![card(Color::Heart, Rank::Two)]);
    assert_eq!(board.player_hp, 20);
}

#[test]
fn handle_discard_on_the_hand_discards_it_all() {
    let mut board = Board::new();
    board.player_hand.push(card(Color::Club, Rank::Two));
    board.player_hand.push(card(Color::Club, Rank::Three));
    board.selection = Some(Selection::PlayerHand(0));
    handle_discard_action(&mut board);
    assert!(board.player_hand.is_empty());
    assert_eq!(board.discard_pile.len(), 2);
}

#[test]
fn handle_enter_fills_the_room_from_the_draw_pile_marker() {
    let mut board = Board::new();
    for _ in 0..5 {
        board.draw_pile.push(card(Color::Heart, Rank::Two));
    }
    board.selection = Some(Selection::DrawPile);
    handle_enter_action(&mut board);
    assert_eq!(board.table_pile.len(), 4);
    assert_eq!(board.draw_pile.len(), 1);
    board.selection = None;
    handle_enter_action(&mut board);
    assert_eq!(board.draw_pile.len(), 1);
}

#[test]
fn flee_keeps_every_card_and_refills_the_room() {
    let mut board = Board::new();
    board.table_pile.push(card(Color::Heart, Rank::Two));
    board.table_pile.push(card(Color::Spade, Rank::Three));
    board.table_pile.push(card(Color::Diamond, Rank::Four));
    board.table_pile.push(card(Color::Club, Rank::Five));
    board.draw_pile.push(card(Color::Heart, Rank::Six));
    board.draw_pile.push(card(Color::Spade, Rank::Seven));
    board.discard_pile.push(card(Color::Club, Rank::Eight));
    let before = all_cards(&board);
    handle_run_action(&mut board);
    let after = all_cards(&board);
    assert!(same_multiset(&before, &after));
    assert_eq!(board.table_pile.len(), 4);
    assert_eq!(board.draw_pile.len(), 2);
    assert_eq!(board.discard_pile.len(), 1);
    assert_eq!(board.player_hp, 20);
}

#[test]
fn flee_with_a_small_table_still_refills() {
    let mut board = Board::new();
    board.table_pile.push(card(Color::Heart, Rank::Two));
    board.draw_pile.push(card(Color::Spade, Rank::Three));
    handle_run_action(&mut board);
    assert_eq!(board.table_pile.len(), 2);
    assert_eq!(board.draw_pile.len(), 0);
}

#[test]
fn cards_are_conserved_over_a_whole_bout() {
    let mut board = new_game();
    assert_eq!(total_cards(&board), 48);
    let start = all_cards(&board);

    board.selection = Some(Selection::TablePile(0));
    handle_equip_action(&mut board);
    assert_eq!(total_cards(&board), 48);

    board.selection = Some(Selection::TablePile(0));
    handle_weapon_attack_action(&mut board);
    assert_eq!(total_cards(&board), 48);

    board.selection = Some(Selection::TablePile(0));
    handle_attack_action(&mut board);
    assert_eq!(total_cards(&board), 48);

    board.selection = Some(Selection::TablePile(0));
    handle_heal_action(&mut board);
    assert_eq!(total_cards(&board), 48);

    board.fill_room();
    assert_eq!(total_cards(&board), 48);

    board.selection = Some(Selection::TablePile(0));
    handle_discard_action(&mut board);
    assert_eq!(total_cards(&board), 48);

    handle_run_action(&mut board);
    assert_eq!(total_cards(&board), 48);

    board.selection = Some(Selection::PlayerHand(0));
    handle_discard_action(&mut board);
    assert_eq!(total_cards(&board), 48);

    // Not one card was created or destroyed, only moved.
    assert!(same_multiset(&start, &all_cards(&board)));
}

#[test]
fn status_is_playing_while_cards_and_hp_remain() {
    let mut board = Board::new();
    board.draw_pile.push(card(Color::Heart, Rank::Two));
    assert_eq!(game_status(&board), GameStatus::Playing);
    board.draw_pile.clear();
    board.table_pile.push(card(Color::Heart, Rank::Two));
    assert_eq!(game_status(&board), GameStatus::Playing);
}

#[test]
fn status_is_victory_exactly_when_both_piles_are_empty() {
    let mut board = Board::new();
    assert_eq!(game_status(&board), GameStatus::Victory);
    board.discard_pile.push(card(Color::Heart, Rank::Two));
    board.player_hand.push(card(Color::Club, Rank::Three));
    assert_eq!(game_status(&board), GameStatus::Victory);
}

#[test]
fn status_is_defeat_at_zero_hp_even_with_empty_piles() {
    let mut board = Board::new();
    board.player_hp = 0;
    assert_eq!(game_status(&board), GameStatus::Defeated);
    board.table_pile.push(card(Color::Heart, Rank::Two));
    assert_eq!(game_status(&board), GameStatus::Defeated);
}

#[test]
fn selection_left_steps_and_jumps_zones() {
    let mut board = Board::new();
    board.table_pile.push(card(Color::Heart, Rank::Two));
    board.table_pile.push(card(Color::Spade, Rank::Three));
    board.player_hand.push(card(Color::Club, Rank::Four));

    board.selection = None;
    move_selection_left(&mut board);
    assert_eq!(board.selection, Some(Selection::DrawPile));
    move_selection_left(&mut board);
    assert_eq!(board.selection, Some(Selection::DrawPile));

    board.selection = Some(Selection::TablePile(1));
    move_selection_left(&mut board);
    assert_eq!(board.selection, Some(Selection::TablePile(0)));
    move_selection_left(&mut board);
    assert_eq!(board.selection, Some(Selection::DrawPile));

    board.selection = Some(Selection::PlayerHand(0));
    move_selection_left(&mut board);
    assert_eq!(board.selection, Some(Selection::TablePile(1)));
}

#[test]
fn selection_left_from_the_hand_without_a_table_goes_to_the_draw_pile() {
    let mut board = Board::new();
    board.player_hand.push(card(Color::Club, Rank::Four));
    board.selection = Some(Selection::PlayerHand(0));
    move_selection_left(&mut board);
    assert_eq!(board.selection, Some(Selection::DrawPile));
}

#[test]
fn selection_right_steps_and_jumps_zones() {
    let mut board = Board::new();
    board.table_pile.push(card(Color::Heart, Rank::Two));
    board.table_pile.push(card(Color::Spade, Rank::Three));
    board.player_hand.push(card(Color::Club, Rank::Four));

    board.selection = None;
    move_selection_right(&mut board);
    assert_eq!(board.selection, Some(Selection::DrawPile));
    move_selection_right(&mut board);
    assert_eq!(board.selection, Some(Selection::TablePile(0)));
    move_selection_right(&mut board);
    assert_eq!(board.selection, Some(Selection::TablePile(1)));
    move_selection_right(&mut board);
    assert_eq!(board.selection, Some(Selection::PlayerHand(0)));
    move_selection_right(&mut board);
    assert_eq!(board.selection, Some(Selection::PlayerHand(0)));
}

#[test]
fn selection_right_from_the_draw_pile_skips_an_empty_table() {
    let mut board = Board::new();
    board.player_hand.push(card(Color::Club, Rank::Four));
    board.selection = Some(Selection::DrawPile);
    move_selection_right(&mut board);
    assert_eq!(board.selection, Some(Selection::PlayerHand(0)));
}

#[test]
fn selection_up_clamps_into_the_table() {
    let mut board = Board::new();
    board.table_pile.push(card(Color::Heart, Rank::Two));
    board.player_hand.push(card(Color::Club, Rank::Four));
    board.player_hand.push(card(Color::Club, Rank::Five));
    board.selection = Some(Selection::PlayerHand(1));
    move_selection_up(&mut board);
    assert_eq!(board.selection, Some(Selection::TablePile(0)));
    move_selection_up(&mut board);
    assert_eq!(board.selection, Some(Selection::DrawPile));
    move_selection_up(&mut board);
    assert_eq!(board.selection, Some(Selection::DrawPile));
}

#[test]
fn selection_down_clamps_into_the_hand() {
    let mut board = Board::new();
    board.table_pile.push(card(Color::Heart, Rank::Two));
    board.table_pile.push(card(Color::Spade, Rank::Three));
    board.player_hand.push(card(Color::Club, Rank::Four));
    board.selection = Some(Selection::DrawPile);
    move_selection_down(&mut board);
    assert_eq!(board.selection, Some(Selection::TablePile(0)));
    board.selection = Some(Selection::TablePile(1));
    move_selection_down(&mut board);
    assert_eq!(board.selection, Some(Selection::PlayerHand(0)));
    move_selection_down(&mut board);
    assert_eq!(board.selection, Some(Selection::PlayerHand(0)));
}
