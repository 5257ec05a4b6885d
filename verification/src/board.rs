use vstd::prelude::*;
use vstd::multiset::Multiset;
use rand::seq::SliceRandom;

use crate::card::Card;
use crate::card::is_high_diamond;
use crate::card::high_diamond;
use crate::card::starting_cards;
use crate::card::lemma_initial_filter;
use crate::selection::Selection;

verus! {

broadcast use {
    vstd::seq_lib::group_to_multiset_ensures,
    vstd::multiset::group_multiset_axioms,
    vstd::multiset::group_multiset_properties,
};

/// Relies on rand's `SliceRandom::shuffle`: it permutes the slice in place,
/// so the cards are kept, only their order changes.
#[verifier::external_body]
pub(crate) fn shuffle_cards(cards: &mut Vec<Card>)
    ensures
        final(cards)@.to_multiset() == old(cards)@.to_multiset(),
{
    cards.shuffle(&mut rand::rng());
}

/// Damage taken when hitting `target` with `weapon`: the strength difference,
/// floored at zero (a strong weapon fully negates a weak monster).
pub open spec fn spec_weapon_damage(weapon: Card, target: Card) -> int {
    if target.rank.spec_value() >= weapon.rank.spec_value() {
        target.rank.spec_value() - weapon.rank.spec_value()
    } else {
        0
    }
}

/// Hit points after taking `damage`: subtraction saturating at zero.
pub open spec fn spec_hp_after(hp: u32, damage: int) -> int {
    if hp >= damage {
        hp - damage
    } else {
        0
    }
}

/// How many cards the table pile still takes before it holds 4 (its soft
/// capacity), bounded by what the draw pile can supply.
pub open spec fn spec_room_target(table_len: int, draw_len: int) -> int {
    if table_len + draw_len >= 4 {
        4
    } else {
        table_len + draw_len
    }
}

/// Relates a board to the same board after its room was filled: cards moved
/// one at a time from the draw pile's top to the table pile until the room
/// held 4 or the draw pile ran out; nothing else changed.
pub open spec fn spec_filled(pre: Board, post: Board) -> bool {
    let n = pre.draw_pile@.len() as int;
    let k = pre.spec_fill_count();
    &&& post.draw_pile@ == pre.draw_pile@.take(n - k)
    &&& post.table_pile@ == pre.table_pile@ + pre.draw_pile@.skip(n - k).reverse()
    &&& post.discard_pile@ == pre.discard_pile@
    &&& post.player_hand@ == pre.player_hand@
    &&& post.player_hp == pre.player_hp
    &&& post.selection == pre.selection
}

/// Relates a board to the same board after a bare-handed attack on the table
/// card at `i`: the target went to the discard pile and the player lost its
/// full strength, saturating at zero.
pub open spec fn spec_unarmed_attack(pre: Board, post: Board, i: int) -> bool {
    let target = pre.table_pile@[i];
    &&& post.table_pile@ == pre.table_pile@.remove(i)
    &&& post.discard_pile@ == pre.discard_pile@.push(target)
    &&& post.player_hp == spec_hp_after(pre.player_hp, target.rank.spec_value() as int)
    &&& post.player_hand@ == pre.player_hand@
    &&& post.draw_pile@ == pre.draw_pile@
    &&& post.selection == pre.selection
}

/// Relates a board to the same board after an attack with the equipped
/// weapon (the first hand card) on the table card at `i`: the target moved
/// into the hand behind the weapon, and the player lost the strength
/// difference, floored at zero.
pub open spec fn spec_weapon_attack(pre: Board, post: Board, i: int) -> bool {
    let weapon = pre.player_hand@[0];
    let target = pre.table_pile@[i];
    &&& post.table_pile@ == pre.table_pile@.remove(i)
    &&& post.player_hand@ == pre.player_hand@.push(target)
    &&& post.player_hp == spec_hp_after(pre.player_hp, spec_weapon_damage(weapon, target))
    &&& post.discard_pile@ == pre.discard_pile@
    &&& post.draw_pile@ == pre.draw_pile@
    &&& post.selection == pre.selection
}

/// The whole game state: four ordered piles of cards, the player's hit
/// points, and the UI cursor.
pub struct Board {
    pub draw_pile: Vec<Card>,
    pub table_pile: Vec<Card>,
    pub discard_pile: Vec<Card>,
    pub player_hand: Vec<Card>,
    pub player_hp: u32,
    pub selection: Option<Selection>,
}

/// Holds when `kept` and `removed` split the pile `before` that `condition`
/// was applied to: together they make up that pile, and `condition` answered
/// `true` for every removed card.
pub open spec fn filter_split<F: Fn(Card) -> bool>(
    condition: F,
    before: Seq<Card>,
    kept: Seq<Card>,
    removed: Seq<Card>,
) -> bool {
    &&& before.to_multiset() == kept.to_multiset().add(removed.to_multiset())
    &&& forall|i: int| 0 <= i < removed.len() ==> call_ensures(condition, (removed[i],), true)
}

impl Board {
    /// All cards currently in play, whichever pile they sit in. Every rule of
    /// the game moves cards between piles and leaves this multiset unchanged;
    /// only dealing and equipping (which is handed its card by the caller)
    /// add to it.
    pub open spec fn cards_in_play(self) -> Multiset<Card> {
        self.draw_pile@.to_multiset().add(self.table_pile@.to_multiset()).add(
            self.discard_pile@.to_multiset(),
        ).add(self.player_hand@.to_multiset())
    }

    /// The number of cards that `fill_room` would move from the draw pile to
    /// the table pile.
    pub open spec fn spec_fill_count(self) -> int {
        let t = self.table_pile@.len() as int;
        let d = self.draw_pile@.len() as int;
        if t >= 4 {
            0
        } else if d <= 4 - t {
            d
        } else {
            4 - t
        }
    }

    pub fn new() -> (board: Board)
        ensures
            board.draw_pile@ == Seq::<Card>::empty(),
            board.table_pile@ == Seq::<Card>::empty(),
            board.discard_pile@ == Seq::<Card>::empty(),
            board.player_hand@ == Seq::<Card>::empty(),
            board.player_hp == 20,
            board.selection is None,
    {
        Board {
            draw_pile: Vec::new(),
            table_pile: Vec::new(),
            discard_pile: Vec::new(),
            player_hand: Vec::new(),
            player_hp: 20,
            selection: None,
        }
    }

    /// Start a fresh session: a full, freshly shuffled deck in the draw
    /// pile, 20 hit points, every other pile empty, no cursor.
    pub fn setup(&mut self)
        ensures
            final(self).draw_pile@.to_multiset() == Card::spec_deck().to_multiset(),
            final(self).draw_pile@.len() == 52,
            final(self).table_pile@ == Seq::<Card>::empty(),
            final(self).discard_pile@ == Seq::<Card>::empty(),
            final(self).player_hand@ == Seq::<Card>::empty(),
            final(self).player_hp == 20,
            final(self).selection is None,
    {
        self.draw_pile = Card::deck();
        shuffle_cards(&mut self.draw_pile);
        self.table_pile = Vec::new();
        self.discard_pile = Vec::new();
        self.player_hand = Vec::new();
        self.player_hp = 20;
        self.selection = None;
        proof {
            assert(self.draw_pile@.len() == self.draw_pile@.to_multiset().len());
            assert(Card::spec_deck().len() == Card::spec_deck().to_multiset().len());
        }
    }

    /// Remove every draw-pile card for which `condition` answers `true`.
    /// Used once, before first play, to strip the high diamonds.
    pub fn filter_draw_pile<F: Fn(Card) -> bool>(&mut self, condition: F)
        requires
            forall|c: Card| #[trigger] call_requires(condition, (c,)),
        ensures
            forall|i: int|
                0 <= i < final(self).draw_pile@.len() ==> call_ensures(
                    condition,
                    (final(self).draw_pile@[i],),
                    false,
                ),
            exists|removed: Seq<Card>|
                #[trigger] filter_split(
                    condition,
                    old(self).draw_pile@,
                    final(self).draw_pile@,
                    removed,
                ),
            final(self).table_pile@ == old(self).table_pile@,
            final(self).discard_pile@ == old(self).discard_pile@,
            final(self).player_hand@ == old(self).player_hand@,
            final(self).player_hp == old(self).player_hp,
            final(self).selection == old(self).selection,
    {
        let mut kept: Vec<Card> = Vec::new();
        let ghost mut removed: Seq<Card> = Seq::empty();
        let n = self.draw_pile.len();
        let mut j: usize = 0;
        while j < n
            invariant
                j <= n,
                n == self.draw_pile@.len(),
                forall|c: Card| #[trigger] call_requires(condition, (c,)),
                self.draw_pile@.take(j as int).to_multiset() == kept@.to_multiset().add(
                    removed.to_multiset(),
                ),
                forall|i: int|
                    0 <= i < kept@.len() ==> call_ensures(condition, (kept@[i],), false),
                forall|i: int|
                    0 <= i < removed.len() ==> call_ensures(condition, (removed[i],), true),
            decreases n - j,
        {
            let card = self.draw_pile[j];
            proof {
                assert(self.draw_pile@.take(j + 1) =~= self.draw_pile@.take(j as int).push(
                    self.draw_pile@[j as int],
                ));
            }
            if !condition(card) {
                kept.push(card);
                proof {
                    assert(self.draw_pile@.take(j + 1).to_multiset() =~= kept@.to_multiset().add(
                        removed.to_multiset(),
                    ));
                }
            } else {
                proof {
                    removed = removed.push(card);
                    assert(self.draw_pile@.take(j + 1).to_multiset() =~= kept@.to_multiset().add(
                        removed.to_multiset(),
                    ));
                }
            }
            j += 1;
        }
        proof {
            assert(self.draw_pile@.take(n as int) =~= self.draw_pile@);
        }
        self.draw_pile = kept;
        proof {
            assert(filter_split(condition, old(self).draw_pile@, self.draw_pile@, removed));
        }
    }

    /// Pop one card from the top (the logical end) of the draw pile.
    pub fn draw_card(&mut self) -> (card: Option<Card>)
        ensures
            old(self).draw_pile@.len() > 0 ==> card == Some(old(self).draw_pile@.last())
                && final(self).draw_pile@ == old(self).draw_pile@.drop_last(),
            old(self).draw_pile@.len() == 0 ==> card is None && final(self).draw_pile@ == old(self).draw_pile@,
            final(self).table_pile@ == old(self).table_pile@,
            final(self).discard_pile@ == old(self).discard_pile@,
            final(self).player_hand@ == old(self).player_hand@,
            final(self).player_hp == old(self).player_hp,
            final(self).selection == old(self).selection,
    {
        self.draw_pile.pop()
    }

    /// Draw until the table pile holds 4 cards or the draw pile runs out,
    /// whichever comes first; a no-op once the room is full.
    pub fn fill_room(&mut self)
        ensures
            spec_filled(*old(self), *final(self)),
            final(self).table_pile@.len() == old(self).table_pile@.len()
                + old(self).spec_fill_count(),
            old(self).table_pile@.len() <= 4 ==> final(self).table_pile@.len()
                == spec_room_target(
                old(self).table_pile@.len() as int,
                old(self).draw_pile@.len() as int,
            ),
            final(self).discard_pile@ == old(self).discard_pile@,
            final(self).player_hand@ == old(self).player_hand@,
            final(self).player_hp == old(self).player_hp,
            final(self).selection == old(self).selection,
            final(self).cards_in_play() == old(self).cards_in_play(),
    {
        let ghost orig: Board = *old(self);
        let ghost mut k: int = 0;
        while self.table_pile.len() < 4 && self.draw_pile.len() > 0
            invariant
                0 <= k <= orig.draw_pile@.len(),
                self.draw_pile@ == orig.draw_pile@.take(orig.draw_pile@.len() - k),
                self.table_pile@ == orig.table_pile@ + orig.draw_pile@.skip(
                    orig.draw_pile@.len() - k,
                ).reverse(),
                self.table_pile@.len() == orig.table_pile@.len() + k,
                orig.table_pile@.len() < 4 ==> self.table_pile@.len() <= 4,
                orig.table_pile@.len() >= 4 ==> k == 0,
                self.discard_pile@ == orig.discard_pile@,
                self.player_hand@ == orig.player_hand@,
                self.player_hp == orig.player_hp,
                self.selection == orig.selection,
            decreases self.draw_pile@.len(),
        {
            let ghost before: Seq<Card> = self.draw_pile@;
            match self.draw_card() {
                Some(card) => {
                    self.table_pile.push(card);
                    proof {
                        let n = orig.draw_pile@.len() as int;
                        assert(before.drop_last() =~= orig.draw_pile@.take(n - (k + 1)));
                        assert(orig.draw_pile@.skip(n - (k + 1)).reverse() =~= orig.draw_pile@.skip(
                            n - k,
                        ).reverse().push(orig.draw_pile@[n - k - 1]));
                        assert(self.table_pile@ =~= orig.table_pile@ + orig.draw_pile@.skip(
                            n - (k + 1),
                        ).reverse());
                        k = k + 1;
                    }
                }
                None => {
                    proof {
                        assert(false);
                    }
                }
            }
        }
        proof {
            let n = orig.draw_pile@.len() as int;
            if orig.table_pile@.len() >= 4 {
                assert(k == orig.spec_fill_count());
            } else if self.table_pile@.len() >= 4 {
                assert(k == 4 - orig.table_pile@.len());
                assert(k == orig.spec_fill_count());
            } else {
                assert(self.draw_pile@.len() == 0);
                assert(n - k == 0);
                assert(k == orig.spec_fill_count());
            }
            assert(orig.draw_pile@.take(n - k) + orig.draw_pile@.skip(n - k)
                =~= orig.draw_pile@);
            vstd::seq_lib::lemma_multiset_commutative(
                orig.draw_pile@.take(n - k),
                orig.draw_pile@.skip(n - k),
            );
            vstd::seq_lib::lemma_multiset_commutative(
                orig.table_pile@,
                orig.draw_pile@.skip(n - k).reverse(),
            );
            orig.draw_pile@.skip(n - k).lemma_reverse_to_multiset();
            assert(self.cards_in_play() =~= orig.cards_in_play());
        }
    }

    /// Move every card from the hand to the discard pile.
    pub fn discard_player_hand(&mut self)
        ensures
            final(self).discard_pile@ == old(self).discard_pile@ + old(self).player_hand@,
            final(self).player_hand@ == Seq::<Card>::empty(),
            final(self).draw_pile@ == old(self).draw_pile@,
            final(self).table_pile@ == old(self).table_pile@,
            final(self).player_hp == old(self).player_hp,
            final(self).selection == old(self).selection,
            final(self).cards_in_play() == old(self).cards_in_play(),
    {
        self.discard_pile.append(&mut self.player_hand);
        self.player_hand.clear();
        proof {
            vstd::seq_lib::lemma_multiset_commutative(
                old(self).discard_pile@,
                old(self).player_hand@,
            );
            assert(self.cards_in_play() =~= old(self).cards_in_play());
        }
    }

    /// Discard the whole hand, then place `card` alone in it: the hand models
    /// the one currently equipped weapon.
    pub fn equip_weapon(&mut self, card: Card)
        ensures
            final(self).discard_pile@ == old(self).discard_pile@ + old(self).player_hand@,
            final(self).player_hand@ == seq![card],
            final(self).draw_pile@ == old(self).draw_pile@,
            final(self).table_pile@ == old(self).table_pile@,
            final(self).player_hp == old(self).player_hp,
            final(self).selection == old(self).selection,
            final(self).cards_in_play() == old(self).cards_in_play().insert(card),
    {
        self.discard_player_hand();
        self.player_hand.push(card);
        proof {
            assert(Seq::<Card>::empty().push(card) =~= seq![card]);
            assert(self.cards_in_play() =~= old(self).cards_in_play().insert(card));
        }
    }

    /// Attack the table card at `index` with the equipped weapon (the first
    /// hand card): the target moves into the hand behind the weapon, and the
    /// player loses the strength difference, floored at zero. No effect if
    /// the hand is empty or the index is out of range.
    pub fn attack_with_weapon(&mut self, index: usize)
        ensures
            (old(self).player_hand@.len() > 0 && index < old(self).table_pile@.len())
                ==> spec_weapon_attack(*old(self), *final(self), index as int),
            !(old(self).player_hand@.len() > 0 && index < old(self).table_pile@.len())
                ==> *final(self) == *old(self),
            final(self).selection == old(self).selection,
            final(self).cards_in_play() == old(self).cards_in_play(),
    {
        if self.player_hand.len() > 0 && index < self.table_pile.len() {
            let weapon = self.player_hand[0];
            let target = self.table_pile.remove(index);
            self.player_hand.push(target);
            let damage = target.rank.value().saturating_sub(weapon.rank.value());
            self.player_hp = self.player_hp.saturating_sub(damage);
            proof {
                assert(old(self).table_pile@.contains(target)) by {
                    assert(old(self).table_pile@[index as int] == target);
                }
                assert(self.cards_in_play() =~= old(self).cards_in_play());
            }
        }
    }

    /// Attack the table card at `index` bare-handed: the target goes to the
    /// discard pile and the player loses its full strength. No effect if the
    /// index is out of range.
    pub fn attack_no_weapon(&mut self, index: usize)
        ensures
            index < old(self).table_pile@.len() ==> spec_unarmed_attack(
                *old(self),
                *final(self),
                index as int,
            ),
            index >= old(self).table_pile@.len() ==> *final(self) == *old(self),
            final(self).selection == old(self).selection,
            final(self).cards_in_play() == old(self).cards_in_play(),
    {
        if index < self.table_pile.len() {
            let target = self.table_pile.remove(index);
            self.discard_pile.push(target);
            let damage = target.rank.value();
            self.player_hp = self.player_hp.saturating_sub(damage);
            proof {
                assert(old(self).table_pile@.contains(target)) by {
                    assert(old(self).table_pile@[index as int] == target);
                }
                assert(self.cards_in_play() =~= old(self).cards_in_play());
            }
        }
    }
}

/// Where a session stands. The board itself has no notion of winning or
/// losing; the shell asks for this after each completed action.
#[derive(Clone, Copy, PartialEq, Eq, Structural, Debug)]
pub enum GameStatus {
    Playing,
    Defeated,
    Victory,
}

/// Defeat as soon as the hit points are gone (it takes precedence when both
/// conditions hold at once), victory when the draw and table piles are both
/// empty, otherwise play goes on.
pub open spec fn spec_status(b: Board) -> GameStatus {
    if b.player_hp == 0 {
        GameStatus::Defeated
    } else if b.draw_pile@.len() == 0 && b.table_pile@.len() == 0 {
        GameStatus::Victory
    } else {
        GameStatus::Playing
    }
}

pub fn game_status(board: &Board) -> (status: GameStatus)
    ensures
        status == spec_status(*board),
{
    if board.player_hp == 0 {
        GameStatus::Defeated
    } else if board.draw_pile.is_empty() && board.table_pile.is_empty() {
        GameStatus::Victory
    } else {
        GameStatus::Playing
    }
}

/// The law of the session's end: defeat stands exactly when the hit points
/// have reached zero, and victory exactly when the draw pile and the table
/// pile are simultaneously empty while hit points remain.
pub proof fn lemma_status_characterization(b: Board)
    ensures
        (spec_status(b) == GameStatus::Defeated) <==> (b.player_hp == 0),
        (spec_status(b) == GameStatus::Victory) <==> (b.player_hp > 0 && b.draw_pile@.len() == 0
            && b.table_pile@.len() == 0),
        (spec_status(b) == GameStatus::Playing) <==> (b.player_hp > 0 && (b.draw_pile@.len() > 0
            || b.table_pile@.len() > 0)),
{
}

/// Deal a fresh session: shuffle a full deck into the draw pile, strip the
/// high diamonds, and fill the first room. The player starts with 20 hit
/// points, 48 cards in play, and no two of them alike.
pub fn new_game() -> (board: Board)
    ensures
        board.player_hp == 20,
        board.selection is None,
        board.discard_pile@ == Seq::<Card>::empty(),
        board.player_hand@ == Seq::<Card>::empty(),
        board.cards_in_play() == starting_cards(),
        board.cards_in_play().len() == 48,
        forall|c: Card| #[trigger] board.cards_in_play().count(c) <= 1,
        board.table_pile@.len() == 4,
        board.draw_pile@.len() == 44,
{
    let mut board = Board::new();
    board.setup();
    let ghost dealt: Seq<Card> = board.draw_pile@;
    let strip = |card: Card| -> (b: bool)
        ensures
            b == is_high_diamond(card),
        { high_diamond(&card) };
    board.filter_draw_pile(strip);
    proof {
        let kept_seq = board.draw_pile@;
        let removed_seq = choose|removed: Seq<Card>|
            filter_split(strip, dealt, kept_seq, removed);
        let kept = kept_seq.to_multiset();
        let removed = removed_seq.to_multiset();
        assert forall|c: Card| kept.count(c) > 0 implies !is_high_diamond(c) by {
            assert(kept_seq.contains(c));
            let i = choose|i: int| 0 <= i < kept_seq.len() && kept_seq[i] == c;
            assert(call_ensures(strip, (kept_seq[i],), false));
        }
        assert forall|c: Card| removed.count(c) > 0 implies is_high_diamond(c) by {
            assert(removed_seq.contains(c));
            let i = choose|i: int| 0 <= i < removed_seq.len() && removed_seq[i] == c;
            assert(call_ensures(strip, (removed_seq[i],), true));
        }
        lemma_initial_filter(kept, removed);
        assert(board.cards_in_play() =~= kept);
        assert(board.draw_pile@.len() == kept.len());
    }
    board.fill_room();
    board
}

} // verus!
