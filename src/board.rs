//! The board: seven tableau columns, four foundation piles and the draw pile.

use vstd::multiset::Multiset;
use vstd::prelude::*;

use crate::deck::{
    fresh_deck, ids, lemma_ids_permutation, rank_of, reveal_top, rotated, Card, CardId, Deck, Value,
};

verus! {

/// The contents of a list of piles.
pub open spec fn piles(cols: Seq<Vec<Card>>) -> Seq<Seq<Card>> {
    cols.map_values(|v: Vec<Card>| v@)
}

/// The multiset of card identities held by a list of piles.
pub open spec fn piles_ids(p: Seq<Seq<Card>>) -> Multiset<CardId>
    decreases p.len(),
{
    if p.len() == 0 {
        Multiset::empty()
    } else {
        piles_ids(p.drop_last()).add(ids(p.last()))
    }
}

pub proof fn lemma_piles_ids_update(p: Seq<Seq<Card>>, i: int, s: Seq<Card>)
    requires
        0 <= i < p.len(),
    ensures
        piles_ids(p.update(i, s)).add(ids(p[i])) =~= piles_ids(p).add(ids(s)),
    decreases p.len(),
{
    let q = p.update(i, s);
    assert(piles_ids(q) == piles_ids(q.drop_last()).add(ids(q.last())));
    assert(piles_ids(p) == piles_ids(p.drop_last()).add(ids(p.last())));
    if i == p.len() - 1 {
        assert(q.drop_last() =~= p.drop_last());
        assert(q.last() == s);
    } else {
        assert(q.drop_last() =~= p.drop_last().update(i, s));
        assert(q.last() == p.last());
        assert(p.drop_last()[i] == p[i]);
        lemma_piles_ids_update(p.drop_last(), i, s);
        assert forall|x: CardId|
            #[trigger] piles_ids(q).add(ids(p[i])).count(x) == piles_ids(p).add(ids(s)).count(x) by {
            assert(piles_ids(q.drop_last()).add(ids(p[i])).count(x) == piles_ids(p.drop_last()).add(
                ids(s),
            ).count(x));
        }
    }
}

pub proof fn lemma_piles_ids_push_card(p: Seq<Seq<Card>>, i: int, c: Card)
    requires
        0 <= i < p.len(),
    ensures
        piles_ids(p.update(i, p[i].push(c))) =~= piles_ids(p).insert(c.id()),
{
    lemma_piles_ids_update(p, i, p[i].push(c));
    assert(p[i].push(c).drop_last() =~= p[i]);
    assert(ids(p[i].push(c)) == ids(p[i].push(c).drop_last()).insert(p[i].push(c).last().id()));
    let q = p.update(i, p[i].push(c));
    assert forall|x: CardId|
        #[trigger] piles_ids(q).count(x) == piles_ids(p).insert(c.id()).count(x) by {
        assert(piles_ids(q).add(ids(p[i])).count(x) == piles_ids(p).add(ids(p[i].push(c))).count(x));
    }
}

/// `n` empty piles.
fn empty_piles(n: usize) -> (r: Vec<Vec<Card>>)
    ensures
        r@.len() == n,
        forall|k: int| 0 <= k < n ==> (#[trigger] r@[k])@.len() == 0,
        piles_ids(piles(r@)) =~= Multiset::<CardId>::empty(),
{
    let mut r: Vec<Vec<Card>> = Vec::new();
    let mut i: usize = 0;
    while i < n
        invariant
            i <= n,
            r@.len() == i,
            forall|k: int| 0 <= k < i ==> (#[trigger] r@[k])@.len() == 0,
            piles_ids(piles(r@)) =~= Multiset::<CardId>::empty(),
        decreases n - i,
    {
        let ghost before = r@;
        r.push(Vec::new());
        proof {
            assert(piles(r@).drop_last() =~= piles(before));
            assert(piles(r@).last() =~= Seq::<Card>::empty());
            assert(ids(Seq::<Card>::empty()) == Multiset::<CardId>::empty());
        }
        i = i + 1;
    }
    r
}

/// The tableau after the cards from row `fy` to the end of column `fx` have
/// been put, in order, on top of column `tx`, and the new top card of column
/// `fx` has been turned face-up. Moving a run onto its own column leaves it
/// where it is.
pub open spec fn moved(t: Seq<Seq<Card>>, fx: int, fy: int, tx: int) -> Seq<Seq<Card>> {
    if fx != tx && fy < t[fx].len() {
        t.update(tx, t[tx] + t[fx].subrange(fy, t[fx].len() as int)).update(
            fx,
            reveal_top(t[fx].subrange(0, fy)),
        )
    } else {
        t.update(fx, reveal_top(t[fx]))
    }
}

/// A foundation pile `f` accepts card `c`: an Ace when it is empty,
/// otherwise the card of the same suit one rank above its top.
pub open spec fn accepts(f: Seq<Card>, c: Card) -> bool {
    if f.len() == 0 {
        c.value == Value::Ace
    } else {
        c.suit == f.last().suit && rank_of(c.value) == rank_of(f.last().value) + 1
    }
}

/// The tableau and foundations after trying to put the card at column `x`,
/// row `y` on foundation `k`. Without a card there nothing changes. When the
/// foundation accepts the card it moves there and the new top card of column
/// `x` is turned face-up; otherwise nothing changes.
pub open spec fn added_to_objective(
    t: Seq<Seq<Card>>,
    f: Seq<Seq<Card>>,
    x: int,
    y: int,
    k: int,
) -> (Seq<Seq<Card>>, Seq<Seq<Card>>) {
    if 0 <= x < t.len() && 0 <= y < t[x].len() {
        let c = t[x][y];
        if accepts(f[k], c) {
            (t.update(x, reveal_top(t[x].remove(y))), f.update(k, f[k].push(c)))
        } else {
            (t, f)
        }
    } else {
        (t, f)
    }
}

/// The shape of a fresh deal: seven columns where column `i` holds `i + 1`
/// cards with only the last face-up, four empty foundations, 24 face-down
/// cards left in the draw pile, and each of the 52 cards exactly once.
pub open spec fn fresh_deal(b: Board) -> bool {
    &&& b.wf()
    &&& forall|i: int|
        0 <= i < 7 ==> (#[trigger] b.tableau()[i]).len() == i + 1 && forall|j: int|
            0 <= j <= i ==> (#[trigger] b.tableau()[i][j]).face_up == (j == i)
    &&& forall|k: int| 0 <= k < 4 ==> (#[trigger] b.foundations()[k]).len() == 0
    &&& b.deck@.len() == 24
    &&& forall|k: int| 0 <= k < 24 ==> !(#[trigger] b.deck@[k]).face_up
    &&& b.card_ids() == ids(fresh_deck())
}

/// No card is lost or duplicated: a board that holds the identities of a
/// fresh deck holds each of the 52 suit-and-rank pairs exactly once and
/// nothing else.
pub proof fn lemma_every_card_once(b: Board)
    requires
        b.card_ids() == ids(fresh_deck()),
    ensures
        forall|id: CardId| #[trigger] b.card_ids().count(id) == 1,
        b.card_ids().len() == 52,
{
    crate::deck::lemma_fresh_deck_complete();
    lemma_ids_len(fresh_deck());
}

/// A sequence of cards has as many identities as cards.
pub proof fn lemma_ids_len(s: Seq<Card>)
    ensures
        ids(s).len() == s.len(),
    decreases s.len(),
{
    if s.len() > 0 {
        lemma_ids_len(s.drop_last());
    }
}

/// The tableau columns, the draw pile and the foundation piles.
pub struct Board {
    pub game_cols: Vec<Vec<Card>>,
    pub deck: Deck,
    pub objectives_cols: Vec<Vec<Card>>,
}

impl Board {
    /// The tableau columns; the last card of each is its top.
    pub open spec fn tableau(&self) -> Seq<Seq<Card>> {
        piles(self.game_cols@)
    }

    /// The foundation piles.
    pub open spec fn foundations(&self) -> Seq<Seq<Card>> {
        piles(self.objectives_cols@)
    }

    /// Seven tableau columns and four foundations.
    pub open spec fn wf(&self) -> bool {
        self.game_cols@.len() == 7 && self.objectives_cols@.len() == 4
    }

    /// The identities of all cards on the board, wherever they lie.
    pub open spec fn card_ids(&self) -> Multiset<CardId> {
        ids(self.deck@).add(piles_ids(self.tableau())).add(piles_ids(self.foundations()))
    }

    /// The card at column `x`, row `y` of the tableau, if there is one.
    pub open spec fn card_at(&self, x: int, y: int) -> Option<Card> {
        if 0 <= x < self.tableau().len() && 0 <= y < self.tableau()[x].len() {
            Some(self.tableau()[x][y])
        } else {
            None
        }
    }

    /// A fresh game: the deck is shuffled, column `i` receives `i + 1` cards
    /// of which only the last is face-up, and the foundations are empty.
    pub fn new() -> (b: Board)
        ensures
            fresh_deal(b),
    {
        let mut deck = Deck::new();
        deck.shuffle();
        proof {
            lemma_ids_permutation(deck@, fresh_deck());
            vstd::seq_lib::to_multiset_len(deck@);
            vstd::seq_lib::to_multiset_len(fresh_deck());
            assert forall|k: int| 0 <= k < deck@.len() implies !(#[trigger] deck@[k]).face_up by {
                broadcast use vstd::seq_lib::group_to_multiset_ensures;

                assert(deck@.contains(deck@[k]));
                assert(fresh_deck().to_multiset().count(deck@[k]) > 0);
                assert(fresh_deck().contains(deck@[k]));
            }
        }
        let mut game = empty_piles(7);
        let mut i: usize = 0;
        while i < 7
            invariant
                i <= 7,
                game@.len() == 7,
                deck@.len() == 52 - i * (i + 1) / 2,
                forall|k: int|
                    0 <= k < i ==> (#[trigger] game@[k])@.len() == k + 1 && forall|j: int|
                        0 <= j <= k ==> (#[trigger] game@[k]@[j]).face_up == (j == k),
                forall|k: int| i <= k < 7 ==> (#[trigger] game@[k])@.len() == 0,
                ids(deck@).add(piles_ids(piles(game@))) == ids(fresh_deck()),
                forall|k: int| 0 <= k < deck@.len() ==> !(#[trigger] deck@[k]).face_up,
            decreases 7 - i,
        {
            let mut j: usize = 0;
            while j < i + 1
                invariant
                    i < 7,
                    j <= i + 1,
                    game@.len() == 7,
                    deck@.len() == 52 - i * (i + 1) / 2 - j,
                    forall|k: int|
                        0 <= k < i ==> (#[trigger] game@[k])@.len() == k + 1 && forall|l: int|
                            0 <= l <= k ==> (#[trigger] game@[k]@[l]).face_up == (l == k),
                    game@[i as int]@.len() == j,
                    forall|l: int| 0 <= l < j ==> (#[trigger] game@[i as int]@[l]).face_up == (l == i),
                    forall|k: int| 0 <= k < deck@.len() ==> !(#[trigger] deck@[k]).face_up,
                    forall|k: int| i < k < 7 ==> (#[trigger] game@[k])@.len() == 0,
                    ids(deck@).add(piles_ids(piles(game@))) == ids(fresh_deck()),
                decreases i + 1 - j,
            {
                assert(i * (i + 1) / 2 <= 21) by (nonlinear_arith)
                    requires
                        i < 7,
                ;
                let ghost before = piles(game@);
                let ghost deck_before = deck@;
                let card = deck.deal();
                if let Some(card) = card {
                    let mut card = card;
                    if j == i {
                        card.set_visible();
                    }
                    game[i].push(card);
                    proof {
                        assert(piles(game@) =~= before.update(i as int, before[i as int].push(card)));
                        lemma_piles_ids_push_card(before, i as int, card);
                        assert(ids(deck_before) == ids(deck@).insert(card.id()));
                    }
                }
                j = j + 1;
            }
            assert((i + 1) * (i + 2) / 2 == i * (i + 1) / 2 + i + 1) by (nonlinear_arith);
            i = i + 1;
        }
        let objectives_cols = empty_piles(4);
        let b = Board { game_cols: game, deck, objectives_cols };
        assert forall|i: int| 0 <= i < 7 implies (#[trigger] b.tableau()[i]).len() == i + 1 by {
            assert(b.tableau()[i] == game@[i]@);
        }
        assert(b.card_ids() =~= ids(fresh_deck()));
        b
    }

    /// The card at column `x`, row `y`; none when either is out of range.
    pub fn get_card(&self, x: usize, y: usize) -> (r: Option<&Card>)
        ensures
            r.is_some() == self.card_at(x as int, y as int).is_some(),
            r.is_some() ==> Some(*r.unwrap()) == self.card_at(x as int, y as int),
    {
        if x < self.game_cols.len() && y < self.game_cols[x].len() {
            Some(&self.game_cols[x][y])
        } else {
            None
        }
    }

    /// Puts every card from row `from.1` to the end of column `from.0` on
    /// top of column `to.0`, keeping their order, then turns the new top card
    /// of column `from.0` face-up. Whether the move is legal is the caller's
    /// decision.
    pub fn move_card(&mut self, from: (usize, usize), to: (usize, usize))
        requires
            old(self).wf(),
            from.0 < 7,
            to.0 < 7,
        ensures
            final(self).wf(),
            final(self).tableau() == moved(
                old(self).tableau(),
                from.0 as int,
                from.1 as int,
                to.0 as int,
            ),
            final(self).foundations() == old(self).foundations(),
            final(self).deck@ == old(self).deck@,
            final(self).card_ids() == old(self).card_ids(),
    {
        let (from_x, from_y) = from;
        let (to_x, _) = to;
        let ghost t = self.tableau();
        let ghost fx = from_x as int;
        let ghost tx = to_x as int;
        if from_x != to_x && from_y < self.game_cols[from_x].len() {
            let mut run = self.game_cols[from_x].split_off(from_y);
            self.game_cols[to_x].append(&mut run);
            proof {
                let src = t[fx];
                let pre = src.subrange(0, from_y as int);
                let post = src.subrange(from_y as int, src.len() as int);
                let t1 = t.update(tx, t[tx] + post);
                assert(self.tableau() =~= t1.update(fx, pre));
                lemma_piles_ids_update(t, tx, t[tx] + post);
                lemma_piles_ids_update(t1, fx, pre);
                crate::deck::lemma_ids_concat(t[tx], post);
                crate::deck::lemma_ids_concat(pre, post);
                assert(src =~= pre + post);
                assert forall|x: CardId|
                    #[trigger] piles_ids(self.tableau()).count(x) == piles_ids(t).count(x) by {
                    assert(piles_ids(t1.update(fx, pre)).add(ids(t1[fx])).count(x) == piles_ids(
                        t1,
                    ).add(ids(pre)).count(x));
                    assert(piles_ids(t1).add(ids(t[tx])).count(x) == piles_ids(t).add(
                        ids(t[tx] + post),
                    ).count(x));
                }
            }
        }
        let ghost t2 = self.tableau();
        let n = self.game_cols[from_x].len();
        if n > 0 {
            self.game_cols[from_x][n - 1].set_visible();
        }
        proof {
            assert(self.tableau() =~= t2.update(fx, reveal_top(t2[fx])));
            lemma_piles_ids_update(t2, fx, reveal_top(t2[fx]));
            crate::deck::lemma_ids_reveal_top(t2[fx]);
            assert forall|x: CardId|
                #[trigger] piles_ids(self.tableau()).count(x) == piles_ids(t2).count(x) by {
                assert(piles_ids(t2.update(fx, reveal_top(t2[fx]))).add(ids(t2[fx])).count(x)
                    == piles_ids(t2).add(ids(reveal_top(t2[fx]))).count(x));
            }
            assert(piles_ids(self.tableau()) =~= piles_ids(t));
            assert(self.tableau() =~= moved(t, fx, from_y as int, tx));
        }
    }

    /// Tries to put the card at `cursor` on foundation `objective_selected`.
    /// When the foundation accepts it, the card leaves its column for the
    /// foundation and the new top card of its column is turned face-up;
    /// otherwise nothing changes. Without a card under the cursor the
    /// foundation index is not looked at.
    pub fn add_to_objective(&mut self, cursor: (usize, usize), objective_selected: usize)
        requires
            old(self).wf(),
            objective_selected < 4 || old(self).card_at(cursor.0 as int, cursor.1 as int).is_none(),
        ensures
            final(self).wf(),
            final(self).deck@ == old(self).deck@,
            final(self).card_ids() == old(self).card_ids(),
            (final(self).tableau(), final(self).foundations()) == added_to_objective(
                old(self).tableau(),
                old(self).foundations(),
                cursor.0 as int,
                cursor.1 as int,
                objective_selected as int,
            ),
    {
        let ghost t = self.tableau();
        let ghost f = self.foundations();
        let card = self.get_card(cursor.0, cursor.1);
        if card.is_none() {
            return;
        }
        let card = *card.unwrap();
        let ghost x = cursor.0 as int;
        let ghost k = objective_selected as int;
        let k_len = self.objectives_cols[objective_selected].len();
        let accepted = if k_len == 0 {
            card.value == Value::Ace
        } else {
            let top = self.objectives_cols[objective_selected][k_len - 1];
            card.suit == top.suit && card.value.rank() as u16 == top.value.rank() as u16 + 1
        };
        if !accepted {
            return;
        }
        self.objectives_cols[objective_selected].push(card);
        self.game_cols[cursor.0].remove(cursor.1);
        proof {
            assert(self.foundations() =~= f.update(k, f[k].push(card)));
            lemma_piles_ids_push_card(f, k, card);
            assert(self.tableau() =~= t.update(x, t[x].remove(cursor.1 as int)));
            lemma_piles_ids_update(t, x, t[x].remove(cursor.1 as int));
            crate::deck::lemma_ids_remove(t[x], cursor.1 as int);
            assert forall|id: CardId|
                #[trigger] piles_ids(self.tableau()).insert(card.id()).count(id) == piles_ids(
                    t,
                ).count(id) by {
                assert(piles_ids(self.tableau()).add(ids(t[x])).count(id) == piles_ids(t).add(
                    ids(t[x].remove(cursor.1 as int)),
                ).count(id));
            }
            assert forall|id: CardId| #[trigger]
                self.card_ids().count(id) == old(self).card_ids().count(id) by {
                assert(piles_ids(self.tableau()).insert(card.id()).count(id) == piles_ids(
                    t,
                ).count(id));
            }
        }
        assert(self.card_ids() =~= old(self).card_ids());
        let ghost t2 = self.tableau();
        let n = self.game_cols[cursor.0].len();
        if n > 0 {
            self.game_cols[cursor.0][n - 1].set_visible();
        }
        proof {
            assert(self.tableau() =~= t2.update(x, reveal_top(t2[x])));
            lemma_piles_ids_update(t2, x, reveal_top(t2[x]));
            crate::deck::lemma_ids_reveal_top(t2[x]);
            assert forall|id: CardId|
                #[trigger] piles_ids(self.tableau()).count(id) == piles_ids(t2).count(id) by {
                assert(piles_ids(t2.update(x, reveal_top(t2[x]))).add(ids(t2[x])).count(id)
                    == piles_ids(t2).add(ids(reveal_top(t2[x]))).count(id));
            }
            assert(piles_ids(self.tableau()) =~= piles_ids(t2));
        }
    }

    /// Cycles the draw pile: its top card goes to the bottom and the new top
    /// card is turned face-up.
    pub fn draw_card(&mut self)
        requires
            old(self).deck@.len() > 0,
        ensures
            final(self).deck@ == rotated(old(self).deck@),
            final(self).game_cols@ == old(self).game_cols@,
            final(self).objectives_cols@ == old(self).objectives_cols@,
            final(self).card_ids() == old(self).card_ids(),
    {
        self.deck.rotate_cards();
        proof {
            crate::deck::lemma_ids_rotated(old(self).deck@);
        }
    }
}

} // verus!
