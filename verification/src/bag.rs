//! The 7-bag randomizer: pieces are dealt from shuffled bags that each
//! hold every piece exactly once.

use rand::seq::SliceRandom;
use rand::rngs::ThreadRng;
use rand::thread_rng;
use vstd::prelude::*;

use crate::piece::{all_pieces, Piece};

verus! {

/// `b` holds each of the seven pieces exactly once.
pub open spec fn is_full_bag(b: Seq<Piece>) -> bool {
    b.len() == 7 && b.to_multiset() == all_pieces().to_multiset()
}

/// The `k`-th block of seven in `s`.
pub open spec fn chunk(s: Seq<Piece>, k: int) -> Seq<Piece> {
    s.subrange(7 * k, 7 * k + 7)
}

/// `s` is a concatenation of full bags.
pub open spec fn is_bag_sequence(s: Seq<Piece>) -> bool {
    &&& s.len() % 7 == 0
    &&& forall|k: int| 0 <= k < s.len() / 7 ==> is_full_bag(#[trigger] chunk(s, k))
}

/// The thread-local random generator of `rand`.
#[verifier::external_type_specification]
#[verifier::external_body]
pub struct ExThreadRng(ThreadRng);

/// Calls `rand::thread_rng`, which hands out the thread-local generator,
/// seeding it from the operating system on first use.
///
/// Nothing is claimed of the generator it returns. The outside code panics if
/// the operating system's random source cannot seed it; no clause speaks of
/// that, as it depends on the machine and not on any argument.
#[verifier::external_body]
fn thread_rng_handle() -> ThreadRng {
    thread_rng()
}

/// Calls `rand::seq::SliceRandom::shuffle` on the pieces, drawing from
/// `rng`.
///
/// Claimed of the outside code: it only swaps elements (a Fisher-Yates
/// shuffle), so the pieces come back permuted, none added and none lost.
/// Which permutation comes back depends on the generator and is left open.
/// Drawing from `rng` may reseed it from the operating system, which panics
/// if the system's random source fails.
#[verifier::external_body]
fn shuffle_pieces(pieces: &mut Vec<Piece>, rng: &mut ThreadRng)
    ensures
        final(pieces)@.len() == old(pieces)@.len(),
        final(pieces)@.to_multiset() == old(pieces)@.to_multiset(),
{
    pieces.shuffle(rng);
}

/// The queue of upcoming pieces.
pub struct Bag {
    queue: Vec<Piece>,
    dealt: Ghost<Seq<Piece>>,
}

impl View for Bag {
    type V = Seq<Piece>;

    /// The upcoming pieces, next first.
    closed spec fn view(&self) -> Seq<Piece> {
        self.queue@
    }
}

/// Appending a full bag to a bag sequence gives a bag sequence.
proof fn lemma_bag_sequence_append(s: Seq<Piece>, b: Seq<Piece>)
    requires
        is_bag_sequence(s),
        is_full_bag(b),
    ensures
        is_bag_sequence(s + b),
{
    let t = s + b;
    assert(t.len() / 7 == s.len() / 7 + 1);
    assert forall|k: int| 0 <= k < t.len() / 7 implies is_full_bag(#[trigger] chunk(t, k)) by {
        if k < s.len() / 7 {
            assert(chunk(t, k) =~= chunk(s, k));
        } else {
            assert(chunk(t, k) =~= b);
        }
    }
}

impl Bag {
    /// The pieces dealt so far, first dealt first.
    pub closed spec fn dealt(&self) -> Seq<Piece> {
        self.dealt@
    }

    /// Every piece this bag has dealt or holds, in dealing order.
    pub open spec fn history(&self) -> Seq<Piece> {
        self.dealt() + self@
    }

    /// The bag's invariant: what it has dealt and holds is a run of full bags.
    pub open spec fn wf(&self) -> bool {
        is_bag_sequence(self.history())
    }

    /// A bag holding one shuffled set of the seven pieces.
    pub fn new() -> (res: Bag)
        ensures
            res.wf(),
            res.dealt() == Seq::<Piece>::empty(),
            is_full_bag(res@),
    {
        let mut b = Bag { queue: Vec::new(), dealt: Ghost(Seq::empty()) };
        proof {
            assert(b.history() =~= Seq::<Piece>::empty());
        }
        b.refill();
        proof {
            assert(b@ =~= Seq::<Piece>::empty() + b@);
            assert(b@.subrange(0, 7) =~= b@);
        }
        b
    }

    /// Appends one shuffled set of the seven pieces.
    pub fn refill(&mut self)
        requires
            old(self).wf(),
            old(self)@.len() + 7 <= usize::MAX,
        ensures
            final(self).wf(),
            final(self).dealt() == old(self).dealt(),
            final(self)@.len() == old(self)@.len() + 7,
            final(self)@.subrange(0, old(self)@.len() as int) == old(self)@,
            is_full_bag(final(self)@.subrange(old(self)@.len() as int, final(self)@.len() as int)),
    {
        let arr = Piece::all();
        let mut all: Vec<Piece> = Vec::new();
        let mut i: usize = 0;
        while i < 7
            invariant
                0 <= i <= 7,
                arr@ == all_pieces(),
                all@ == arr@.subrange(0, i as int),
            decreases 7 - i,
        {
            all.push(arr[i]);
            i = i + 1;
            proof {
                assert(all@ =~= arr@.subrange(0, i as int));
            }
        }
        proof {
            assert(all@ =~= all_pieces());
        }
        let mut rng = thread_rng_handle();
        shuffle_pieces(&mut all, &mut rng);
        let ghost bag = all@;
        let ghost before = self.history();
        self.queue.append(&mut all);
        proof {
            assert(is_full_bag(bag));
            lemma_bag_sequence_append(before, bag);
            assert(self.history() =~= before + bag);
            assert(self@.subrange(0, old(self)@.len() as int) =~= old(self)@);
            assert(self@.subrange(old(self)@.len() as int, self@.len() as int) =~= bag);
        }
    }

    /// Refills until at least `n` pieces are queued.
    pub fn ensure(&mut self, n: usize)
        requires
            old(self).wf(),
            n + 7 <= usize::MAX,
        ensures
            final(self).wf(),
            final(self).dealt() == old(self).dealt(),
            old(self).history().is_prefix_of(final(self).history()),
            final(self)@.len() >= n,
            old(self)@.is_prefix_of(final(self)@),
            old(self)@.len() >= n ==> final(self)@ == old(self)@,
            final(self)@.len() > old(self)@.len() ==> final(self)@.len() < n + 7,
            (final(self)@.len() - old(self)@.len()) % 7 == 0,
    {
        while self.queue.len() < n
            invariant
                self.wf(),
                self.dealt() == old(self).dealt(),
                n + 7 <= usize::MAX,
                old(self)@.is_prefix_of(self@),
                old(self)@.len() >= n ==> self@ == old(self)@,
                self@.len() > old(self)@.len() ==> self@.len() < n + 7,
                (self@.len() - old(self)@.len()) % 7 == 0,
            decreases n + 7 - self@.len(),
        {
            let ghost prev = self@;
            self.refill();
            proof {
                assert(old(self)@ =~= self@.subrange(0, old(self)@.len() as int)) by {
                    assert(old(self)@ =~= prev.subrange(0, old(self)@.len() as int));
                }
            }
        }
    }

    /// Deals the next piece, refilling first if the queue is empty.
    pub fn next(&mut self) -> (res: Piece)
        requires
            old(self).wf(),
        ensures
            final(self).wf(),
            final(self).dealt() == old(self).dealt().push(res),
            old(self).dealt().is_prefix_of(final(self).dealt()),
            old(self).history().is_prefix_of(final(self).history()),
            old(self)@.len() > 0 ==> res == old(self)@[0] && final(self)@ == old(self)@.drop_first(),
            old(self)@.len() == 0 ==> is_full_bag(seq![res] + final(self)@),
    {
        self.ensure(1);
        let ghost mid = self@;
        let ghost mid_hist = self.history();
        let res = self.queue.remove(0);
        self.dealt = Ghost(self.dealt@.push(res));
        proof {
            assert(self.history() =~= mid_hist);
            assert(old(self).history().is_prefix_of(mid_hist)) by {
                assert(old(self).history() =~= mid_hist.subrange(0, old(self).history().len() as int));
            }
            assert(self@ =~= mid.drop_first());
            if old(self)@.len() == 0 {
                assert(mid.len() == 7);
                let k: int = old(self).dealt().len() as int / 7;
                assert(old(self).history() =~= old(self).dealt());
                assert(chunk(mid_hist, k) =~= mid);
                assert(seq![res] + self@ =~= mid);
            }
        }
        res
    }

    /// What previewing `n` pieces does: whole bags are appended until `n`
    /// are queued (none if there were), nothing is dealt, and the preview is
    /// the front `n` of the queue.
    pub open spec fn peek_result(before: Bag, after: Bag, n: nat, preview: Seq<Piece>) -> bool {
        &&& after.wf()
        &&& after.dealt() == before.dealt()
        &&& before.history().is_prefix_of(after.history())
        &&& before@.is_prefix_of(after@)
        &&& before@.len() >= n ==> after@ == before@
        &&& after@.len() >= n
        &&& after@.len() > before@.len() ==> after@.len() < n + 7
        &&& (after@.len() - before@.len()) % 7 == 0
        &&& preview == after@.take(n as int)
    }

    /// The next `n` pieces, refilling as needed; none is dealt.
    pub fn peek_n(&mut self, n: usize) -> (res: Vec<Piece>)
        requires
            old(self).wf(),
            n + 7 <= usize::MAX,
        ensures
            Bag::peek_result(*old(self), *final(self), n as nat, res@),
    {
        self.ensure(n);
        let mut res: Vec<Piece> = Vec::new();
        let mut i: usize = 0;
        while i < n
            invariant
                0 <= i <= n,
                n <= self@.len(),
                self@ == self.queue@,
                res@ == self@.take(i as int),
            decreases n - i,
        {
            res.push(self.queue[i]);
            i = i + 1;
            proof {
                assert(res@ =~= self@.take(i as int));
            }
        }
        res
    }
}

/// Fairness of the randomizer: in every block of seven that a bag deals,
/// counted from the first piece it ever dealt, each of the seven pieces occurs
/// exactly once.
pub proof fn lemma_each_block_has_every_piece_once(bag: Bag, k: int, p: Piece)
    requires
        bag.wf(),
        0 <= k < bag.history().len() / 7,
    ensures
        chunk(bag.history(), k).len() == 7,
        chunk(bag.history(), k).to_multiset().count(p) == 1,
{
    let c = chunk(bag.history(), k);
    assert(is_full_bag(c));
    let a = all_pieces();
    assert(a.no_duplicates());
    a.lemma_multiset_has_no_duplicates();
    broadcast use vstd::seq_lib::group_to_multiset_ensures;

    assert(a.contains(p)) by {
        match p {
            Piece::I => assert(a[0] == p),
            Piece::O => assert(a[1] == p),
            Piece::T => assert(a[2] == p),
            Piece::S => assert(a[3] == p),
            Piece::Z => assert(a[4] == p),
            Piece::J => assert(a[5] == p),
            Piece::L => assert(a[6] == p),
        }
    }
}

/// The preview is what comes: if `preview` was the front of the queue of
/// `before`, and `after` is a later state of the same bag that has dealt at
/// least `preview.len()` more pieces, those pieces were exactly `preview`, in
/// order.
pub proof fn lemma_preview_is_dealt_in_order(before: Bag, after: Bag, preview: Seq<Piece>)
    requires
        preview.is_prefix_of(before@),
        before.history().is_prefix_of(after.history()),
        before.dealt().is_prefix_of(after.dealt()),
        after.dealt().len() >= before.dealt().len() + preview.len(),
    ensures
        after.dealt().subrange(
            before.dealt().len() as int,
            before.dealt().len() + preview.len() as int,
        ) == preview,
{
    let d = before.dealt().len() as int;
    let n = preview.len() as int;
    assert forall|j: int| 0 <= j < n implies #[trigger] after.dealt().subrange(d, d + n)[j]
        == preview[j] by {
        assert(after.history()[d + j] == after.dealt()[d + j]);
        assert(before.history()[d + j] == before@[j]);
        assert(after.history().subrange(0, before.history().len() as int)[d + j]
            == after.history()[d + j]);
        assert(after.dealt().subrange(d, d + n)[j] == after.dealt()[d + j]);
    }
    assert(after.dealt().subrange(d, d + n) =~= preview);
}

/// Previewing again, no further than before, shows the front of the earlier
/// preview and changes nothing: no refill, no reshuffle.
pub proof fn lemma_repeated_preview(
    before: Bag,
    mid: Bag,
    after: Bag,
    first: Seq<Piece>,
    second: Seq<Piece>,
    n: nat,
    m: nat,
)
    requires
        Bag::peek_result(before, mid, n, first),
        Bag::peek_result(mid, after, m, second),
        m <= n,
    ensures
        after@ == mid@,
        after.dealt() == mid.dealt(),
        second == first.take(m as int),
{
    assert(second =~= first.take(m as int));
}

} // verus!
