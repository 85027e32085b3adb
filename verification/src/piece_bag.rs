use crate::player_piece::{piece_in_bounds, piece_wf, template, PieceView, PlayerPiece};
use rand::seq::SliceRandom;
use vstd::prelude::*;
use vstd::seq_lib::lemma_multiset_commutative;

verus! {

/// The views of a sequence of pieces, in order.
pub open spec fn views_of(s: Seq<PlayerPiece>) -> Seq<PieceView> {
    s.map_values(|p: PlayerPiece| p@)
}

/// The seven canonical pieces, one of each shape.
pub open spec fn templates() -> Seq<PieceView> {
    Seq::new(7, |i: int| template(i))
}

/// One full batch: it holds each of the seven shapes exactly once, in some
/// order.
pub open spec fn full_batch(s: Seq<PieceView>) -> bool {
    s.to_multiset() == templates().to_multiset()
}

/// Every piece in the sequence is well formed and inside the playing field.
pub open spec fn pieces_wf(s: Seq<PieceView>) -> bool {
    forall|i: int| 0 <= i < s.len() ==> piece_wf(#[trigger] s[i]) && piece_in_bounds(s[i])
}

/// Mathematical image of the piece supply: the batch still being dealt and
/// the batch queued behind it. Pieces are dealt from the end of `remaining`.
#[verifier::ext_equal]
pub ghost struct BagView {
    pub remaining: Seq<PieceView>,
    pub queued: Seq<PieceView>,
}

/// A well-formed supply: all pieces sound, the remaining batch never above
/// seven pieces, and the queued batch always holding exactly seven, so a
/// draw can never find both batches exhausted.
pub open spec fn bag_wf(bv: BagView) -> bool {
    &&& pieces_wf(bv.remaining)
    &&& pieces_wf(bv.queued)
    &&& bv.remaining.len() <= 7
    &&& bv.queued.len() == 7
}

/// A freshly constructed supply: both batches are full batches.
pub open spec fn fresh_bag(bv: BagView) -> bool {
    &&& full_batch(bv.remaining)
    &&& full_batch(bv.queued)
}

/// The piece the next draw will deal: the top of the remaining batch, or of
/// the queued batch once the remaining one is exhausted.
pub open spec fn spec_peek(bv: BagView) -> PieceView {
    if bv.remaining.len() > 0 {
        bv.remaining.last()
    } else {
        bv.queued.last()
    }
}

/// How one draw changes the supply: the dealt piece comes off the top of the
/// remaining batch; when that batch is exhausted, the queued batch takes its
/// place and a freshly shuffled full batch is queued.
pub open spec fn bag_next_rel(pre: BagView, post: BagView, dealt: PieceView) -> bool {
    if pre.remaining.len() > 0 {
        &&& dealt == pre.remaining.last()
        &&& post.remaining == pre.remaining.drop_last()
        &&& post.queued == pre.queued
    } else {
        &&& dealt == pre.queued.last()
        &&& post.remaining == pre.queued.drop_last()
        &&& full_batch(post.queued)
        &&& pieces_wf(post.queued)
    }
}

/// How a hold exchange changes the supply: one draw, then the held piece is
/// put back on top of the remaining batch.
pub open spec fn bag_swap_rel(
    pre: BagView,
    post: BagView,
    held: PieceView,
    dealt: PieceView,
) -> bool {
    exists|mid: BagView|
        #[trigger] bag_next_rel(pre, mid, dealt) && post.remaining == mid.remaining.push(held)
            && post.queued == mid.queued
}

/// The randomized piece supply: two batches of seven, each a permutation of
/// the seven shapes when freshly generated. Dealing pops the remaining
/// batch; an exhausted batch is replaced by the queued one and a fresh
/// shuffle is queued.
pub struct PieceBag {
    remaining: Vec<PlayerPiece>,
    queued: Vec<PlayerPiece>,
}

impl View for PieceBag {
    type V = BagView;

    closed spec fn view(&self) -> BagView {
        BagView { remaining: views_of(self.remaining@), queued: views_of(self.queued@) }
    }
}

/// Relies on rand's `SliceRandom::shuffle`: it permutes the elements of the
/// slice in place by swaps (a Fisher-Yates pass), so the multiset of
/// elements is unchanged.
#[verifier::external_body]
fn shuffle_pieces(v: &mut Vec<PlayerPiece>)
    ensures
        final(v)@.to_multiset() == old(v)@.to_multiset(),
{
    v.shuffle(&mut rand::rng());
}

/// Two sequences with the same elements have views with the same elements.
proof fn lemma_views_multiset(s1: Seq<PlayerPiece>, s2: Seq<PlayerPiece>)
    requires
        s1.to_multiset() == s2.to_multiset(),
    ensures
        views_of(s1).to_multiset() == views_of(s2).to_multiset(),
    decreases s1.len(),
{
    broadcast use vstd::seq_lib::group_to_multiset_ensures;
    broadcast use vstd::multiset::group_multiset_axioms;

    if s1.len() == 0 {
        assert(s2.len() == s2.to_multiset().len());
        assert(views_of(s1) =~= views_of(s2));
    } else {
        let e = s1.last();
        assert(s1.contains(e));
        assert(s1.to_multiset().count(e) > 0);
        assert(s2.contains(e));
        let i = choose|i: int| 0 <= i < s2.len() && s2[i] == e;
        let s1r = s1.drop_last();
        let s2r = s2.remove(i);
        assert(s1.remove(s1.len() - 1) =~= s1r);
        assert(s1r.to_multiset() == s1.to_multiset().remove(e));
        assert(s2r.to_multiset() == s2.to_multiset().remove(e));
        lemma_views_multiset(s1r, s2r);
        assert(views_of(s1) =~= views_of(s1r).push(e@));
        assert(views_of(s1).to_multiset() == views_of(s1r).to_multiset().insert(e@));
        assert(views_of(s2r) =~= views_of(s2).remove(i));
        assert(views_of(s2)[i] == e@);
        assert(views_of(s2r).to_multiset() == views_of(s2).to_multiset().remove(e@));
        assert(views_of(s2).contains(e@));
        assert(views_of(s2).to_multiset().count(e@) > 0);
        assert(views_of(s2).to_multiset() =~= views_of(s2r).to_multiset().insert(e@));
        assert(views_of(s1).to_multiset() =~= views_of(s2).to_multiset());
    }
}

/// A freshly shuffled full batch: the seven shapes in a random order.
fn all_shuffled() -> (v: Vec<PlayerPiece>)
    ensures
        full_batch(views_of(v@)),
        pieces_wf(views_of(v@)),
        v@.len() == 7,
{
    let mut v: Vec<PlayerPiece> = Vec::new();
    let mut i: usize = 0;
    while i < 7
        invariant
            i <= 7,
            v@.len() == i,
            forall|k: int| 0 <= k < i ==> (#[trigger] v@[k])@ == template(k),
        decreases 7 - i,
    {
        v.push(PlayerPiece::new(i));
        i = i + 1;
    }
    proof {
        assert(views_of(v@) =~= templates());
    }
    let ghost before = v@;
    shuffle_pieces(&mut v);
    proof {
        broadcast use vstd::seq_lib::group_to_multiset_ensures;

        lemma_views_multiset(v@, before);
        lemma_batch_pieces_wf(views_of(v@));
        assert(views_of(v@).len() == v@.len());
        assert(views_of(v@).len() == views_of(v@).to_multiset().len());
        assert(templates().len() == templates().to_multiset().len());
    }
    v
}

impl PieceBag {
    pub open spec fn wf(&self) -> bool {
        bag_wf(self@)
    }

    /// The view reads the two vectors one for one.
    proof fn view_bridge(&self)
        ensures
            self@.remaining == views_of(self.remaining@),
            self@.queued == views_of(self.queued@),
            self@.remaining.len() == self.remaining@.len(),
            self@.queued.len() == self.queued@.len(),
            forall|i: int|
                0 <= i < self.remaining@.len() ==> self@.remaining[i] == (
                #[trigger] self.remaining@[i])@,
            forall|i: int|
                0 <= i < self.queued@.len() ==> self@.queued[i] == (#[trigger] self.queued@[i])@,
    {
    }

    /// A fresh supply: two independently shuffled full batches.
    pub fn new() -> (b: PieceBag)
        ensures
            b.wf(),
            fresh_bag(b@),
    {
        let b = PieceBag { remaining: all_shuffled(), queued: all_shuffled() };
        proof {
            b.view_bridge();
            broadcast use vstd::seq_lib::group_to_multiset_ensures;

            assert(b@.queued.len() == b@.queued.to_multiset().len());
            assert(templates().len() == templates().to_multiset().len());
        }
        b
    }

    /// Deal the next piece. The supply is never empty: when the remaining
    /// batch runs out, the queued batch takes its place and a fresh shuffle
    /// is queued behind it.
    pub fn next(&mut self) -> (r: PlayerPiece)
        requires
            old(self).wf(),
        ensures
            final(self).wf(),
            bag_next_rel(old(self)@, final(self)@, r@),
            r@ == spec_peek(old(self)@),
            piece_wf(r@),
            piece_in_bounds(r@),
    {
        proof {
            self.view_bridge();
        }
        match self.remaining.pop() {
            Some(piece) => {
                proof {
                    self.view_bridge();
                    assert(self@.remaining =~= old(self)@.remaining.drop_last());
                }
                piece
            },
            None => {
                core::mem::swap(&mut self.remaining, &mut self.queued);
                let mut batch = all_shuffled();
                core::mem::swap(&mut self.queued, &mut batch);
                let r = match self.remaining.pop() {
                    Some(piece) => piece,
                    None => {
                        // the queued batch always holds seven pieces
                        proof {
                            assert(false);
                        }
                        PlayerPiece::new(0)
                    },
                };
                proof {
                    self.view_bridge();
                    assert(self@.remaining =~= old(self)@.queued.drop_last());
                    assert(r@ == old(self)@.queued.last());
                }
                r
            },
        }
    }

    /// The piece the next draw will deal, without consuming it.
    pub fn peek(&self) -> (r: &PlayerPiece)
        requires
            self.wf(),
        ensures
            r@ == spec_peek(self@),
            piece_wf(r@),
            piece_in_bounds(r@),
    {
        proof {
            self.view_bridge();
        }
        if self.remaining.len() != 0 {
            &self.remaining[self.remaining.len() - 1]
        } else {
            &self.queued[self.queued.len() - 1]
        }
    }

    /// Exchange a held piece: deal the next piece and put the held one back
    /// on top of the remaining batch, to be dealt again next.
    pub fn swap(&mut self, piece: PlayerPiece) -> (r: PlayerPiece)
        requires
            old(self).wf(),
            piece_wf(piece@),
            piece_in_bounds(piece@),
        ensures
            final(self).wf(),
            bag_swap_rel(old(self)@, final(self)@, piece@, r@),
            r@ == spec_peek(old(self)@),
            piece_wf(r@),
            piece_in_bounds(r@),
    {
        let out = self.next();
        let ghost mid = self@;
        self.remaining.push(piece);
        proof {
            self.view_bridge();
            assert(self@.remaining =~= mid.remaining.push(piece@));
            assert(bag_next_rel(old(self)@, mid, out@));
        }
        out
    }
}

/// Each of the seven canonical pieces is well formed and inside the field.
proof fn lemma_templates_wf()
    ensures
        forall|k: int|
            0 <= k < 7 ==> piece_wf(#[trigger] template(k)) && piece_in_bounds(template(k)),
{
    assert forall|k: int|
        0 <= k < 7 implies piece_wf(#[trigger] template(k)) && piece_in_bounds(template(k)) by {
        assert(forall|i: int| 0 <= i < 4 ==> crate::player_piece::in_bounds_at(template(k), i));
    }
}

/// Every piece of a full batch is one of the seven canonical pieces, hence
/// well formed and inside the field.
proof fn lemma_batch_pieces_wf(s: Seq<PieceView>)
    requires
        full_batch(s),
    ensures
        pieces_wf(s),
{
    broadcast use vstd::seq_lib::group_to_multiset_ensures;

    lemma_templates_wf();
    assert forall|i: int| #![trigger s[i]] 0 <= i < s.len() implies exists|k: int|
        #![trigger template(k)]
        0 <= k < 7 && s[i] == template(k) by {
        assert(s.contains(s[i]));
        assert(s.to_multiset().count(s[i]) > 0);
        assert(templates().to_multiset().count(s[i]) > 0);
        assert(templates().contains(s[i]));
        let k = choose|k: int| 0 <= k < templates().len() && templates()[k] == s[i];
        assert(templates()[k] == template(k));
        assert(0 <= k < 7 && s[i] == template(k));
    }
    assert forall|i: int| 0 <= i < s.len() implies piece_wf(#[trigger] s[i]) && piece_in_bounds(
        s[i],
    ) by {
        let k = choose|k: int| #![trigger template(k)] 0 <= k < 7 && s[i] == template(k);
        assert(piece_wf(template(k)));
    }
}

/// The seven canonical pieces are pairwise distinct.
proof fn lemma_templates_no_duplicates()
    ensures
        templates().no_duplicates(),
{
    assert forall|i: int, j: int|
        0 <= i < templates().len() && 0 <= j < templates().len() && i != j implies templates()[i]
        != templates()[j] by {
        assert(templates()[i] == template(i));
        assert(templates()[j] == template(j));
        if template(i) == template(j) {
            assert(template(i).box_size == template(j).box_size);
            assert(template(i).tiles[0] == template(j).tiles[0]);
            assert(template(i).tiles[2] == template(j).tiles[2]);
            assert(template(i).tiles[3] == template(j).tiles[3]);
            assert(false);
        }
    }
}

/// Law: a fresh supply holds, among its first seven pieces, each of the
/// seven shapes exactly once; the queued batch repeats this, so fourteen
/// consecutive draws deal each shape exactly twice. Draws deal `remaining`
/// from its end, then `queued` from its end.
pub proof fn lemma_supply_fairness(bv: BagView)
    requires
        fresh_bag(bv),
    ensures
        bv.remaining.len() == 7,
        bv.queued.len() == 7,
        forall|k: int|
            0 <= k < 7 ==> bv.remaining.to_multiset().count(#[trigger] template(k)) == 1,
        forall|k: int| 0 <= k < 7 ==> bv.queued.to_multiset().count(#[trigger] template(k)) == 1,
        forall|k: int|
            0 <= k < 7 ==> (bv.remaining + bv.queued).to_multiset().count(#[trigger] template(k))
                == 2,
{
    broadcast use vstd::seq_lib::group_to_multiset_ensures;

    lemma_templates_no_duplicates();
    templates().lemma_multiset_has_no_duplicates();
    assert(bv.remaining.len() == bv.remaining.to_multiset().len());
    assert(templates().len() == templates().to_multiset().len());
    assert(bv.queued.len() == bv.queued.to_multiset().len());
    assert forall|k: int| 0 <= k < 7 implies bv.remaining.to_multiset().count(
        #[trigger] template(k),
    ) == 1 && bv.queued.to_multiset().count(template(k)) == 1 by {
        assert(templates()[k] == template(k));
        assert(templates().contains(template(k)));
        assert(templates().to_multiset().count(template(k)) > 0);
        assert(templates().to_multiset().contains(template(k)));
    }
    lemma_multiset_commutative(bv.remaining, bv.queued);
    assert forall|k: int| 0 <= k < 7 implies (bv.remaining + bv.queued).to_multiset().count(
        #[trigger] template(k),
    ) == 2 by {
        assert((bv.remaining + bv.queued).to_multiset() == bv.remaining.to_multiset().add(
            bv.queued.to_multiset(),
        ));
    }
}

} // verus!
