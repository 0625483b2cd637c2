//! A round of fetching.
//!
//! Before a round of a walk is stepped through, the documents that it needs are fetched, by one
//! worker or by several. [`Round::claim`] hands a worker the next package, and [`Round::close`]
//! takes what came of it; both give the event to tell. The replies come out in the order of the
//! packages, whoever was first.

use crate::common::ResolveEvent;
use crate::json::Json;
use crate::text::Text;
use crate::walk::Reply;
use vstd::prelude::*;
use vstd::string::*;

verus! {

/// The state of a round.
pub struct RoundView {
    /// The packages whose documents are fetched.
    pub names: Seq<Text>,
    /// How many of them were handed out.
    pub next: int,
    /// What came of each.
    pub replies: Seq<Option<Reply>>,
}

/// A round of which nothing was handed out.
pub open spec fn round_of(names: Seq<Text>) -> RoundView {
    RoundView { names, next: 0, replies: Seq::new(names.len(), |i: int| None) }
}

/// A reply has come for every package.
pub open spec fn is_over(v: RoundView) -> bool {
    forall|i: int| 0 <= i < v.replies.len() ==> (#[trigger] v.replies[i]) is Some
}

/// The replies of a round by package.
pub open spec fn collected(v: RoundView) -> Seq<(Text, Reply)> {
    Seq::new(v.names.len(), |i: int| (v.names[i], v.replies[i]->0))
}

/// The value of an optional reply.
pub open spec fn optional_reply(reply: Option<Result<Json, String>>) -> Option<Reply> {
    match reply {
        Some(reply) => Some(crate::walk::reply_view(reply)),
        None => None,
    }
}

/// A round of fetching.
pub struct Round {
    names: Vec<String>,
    next: usize,
    replies: Vec<Option<Result<Json, String>>>,
}

impl View for Round {
    type V = RoundView;

    closed spec fn view(&self) -> RoundView {
        RoundView {
            names: crate::text::texts(self.names@),
            next: self.next as int,
            replies: Seq::new(self.replies@.len(), |i: int| optional_reply(self.replies@[i])),
        }
    }
}

impl Round {
    /// There is a place for each reply, and none has come for what was not handed out.
    pub open spec fn wf(&self) -> bool {
        &&& self@.replies.len() == self@.names.len()
        &&& 0 <= self@.next <= self@.names.len()
        &&& forall|i: int|
            self@.next <= i < self@.replies.len() ==> (#[trigger] self@.replies[i]) is None
    }

    /// A round that fetches the documents of `names`.
    pub fn new(names: Vec<String>) -> (r: Round)
        ensures
            r.wf(),
            r@ == round_of(crate::text::texts(names@)),
    {
        let mut replies: Vec<Option<Result<Json, String>>> = Vec::new();
        let mut i: usize = 0;
        while i < names.len()
            invariant
                i <= names@.len(),
                replies@.len() == i,
                forall|k: int| 0 <= k < i ==> (#[trigger] replies@[k]) is None,
            decreases names@.len() - i,
        {
            replies.push(None);
            i = i + 1;
        }
        let round = Round { names, next: 0, replies };
        assert(round@.replies == round_of(crate::text::texts(names@)).replies);
        round
    }

    /// The next package, by its position, with the event that its fetch begins; nothing when all
    /// were handed out.
    pub fn claim(&mut self) -> (r: Option<(usize, ResolveEvent)>)
        requires
            old(self).wf(),
        ensures
            final(self).wf(),
            final(self)@ == moved(old(self)@, Move::Claim),
            match r {
                None => old(self)@.next == old(self)@.names.len(),
                Some((i, event)) => old(self)@.next < old(self)@.names.len() && i
                    == old(self)@.next && (event matches ResolveEvent::FetchBegin { name }
                    && name@ == old(self)@.names[i as int]),
            },
    {
        let ghost before = self@;
        if self.next < self.names.len() {
            let at: usize = self.next;
            let name = self.names[at].clone();
            self.next = at + 1;
            assert(self@.replies == before.replies);
            Some((at, ResolveEvent::FetchBegin { name }))
        } else {
            None
        }
    }

    /// Hand in what came of the package at `i`, and get the event that its fetch is over, which
    /// a failed fetch is too.
    pub fn close(&mut self, i: usize, reply: Result<Json, String>) -> (r: ResolveEvent)
        requires
            old(self).wf(),
            may_move(old(self)@, Move::Close(i as int, crate::walk::reply_view(reply))),
        ensures
            final(self).wf(),
            final(self)@ == moved(
                old(self)@,
                Move::Close(i as int, crate::walk::reply_view(reply)),
            ),
            r matches ResolveEvent::FetchDone { name } && name@ == old(self)@.names[i as int],
    {
        let ghost before = self@;
        let name = self.names[i].clone();
        self.replies.set(i, Some(reply));
        assert(self@.replies == before.replies.update(
            i as int,
            Some(crate::walk::reply_view(reply)),
        ));
        ResolveEvent::FetchDone { name }
    }

    /// Whether the package at `i` was handed out and nothing has come of it yet.
    pub fn is_open(&self, i: usize) -> (r: bool)
        requires
            self.wf(),
        ensures
            r == (i < self@.next && self@.replies[i as int] is None),
    {
        i < self.next && self.replies[i].is_none()
    }

    /// The replies by package, in the order of the packages; nothing while one is still awaited.
    pub fn replies(self) -> (r: Option<Vec<(String, Result<Json, String>)>>)
        requires
            self.wf(),
        ensures
            match r {
                Some(list) => is_over(self@) && crate::walk::reply_views(list@) == collected(
                    self@,
                ),
                None => !is_over(self@),
            },
    {
        let ghost v = self@;
        let ghost given = self.replies@;
        let names = self.names;
        let mut replies = self.replies;
        let mut list: Vec<(String, Result<Json, String>)> = Vec::new();
        let mut i: usize = 0;
        assert(crate::walk::reply_views(list@) == collected(v).take(0));
        while i < names.len()
            invariant
                i <= names@.len(),
                v == self@,
                names@.len() == given.len(),
                replies@.len() == given.len(),
                v.names == crate::text::texts(names@),
                v.replies.len() == given.len(),
                forall|k: int|
                    0 <= k < given.len() ==> #[trigger] v.replies[k] == optional_reply(given[k]),
                forall|k: int| i <= k < given.len() ==> #[trigger] replies@[k] == given[k],
                forall|k: int| 0 <= k < i ==> (#[trigger] v.replies[k]) is Some,
                crate::walk::reply_views(list@) == collected(v).take(i as int),
            decreases names@.len() - i,
        {
            let ghost before = list@;
            match replies[i].take() {
                None => {
                    assert(v.replies[i as int] is None);
                    return None;
                },
                Some(reply) => {
                    assert(v.replies[i as int] == Some(crate::walk::reply_view(reply)));
                    list.push((names[i].clone(), reply));
                    assert(crate::walk::reply_views(list@) == crate::walk::reply_views(
                        before,
                    ).push((names@[i as int]@, crate::walk::reply_view(reply))));
                    assert(collected(v).take(i + 1) == collected(v).take(i as int).push(
                        collected(v)[i as int],
                    ));
                },
            }
            i = i + 1;
        }
        assert(collected(v).take(i as int) == collected(v));
        Some(list)
    }
}

/// What is done to a round.
pub enum Move {
    Claim,
    Close(int, Reply),
}

/// The round after a move.
pub open spec fn moved(v: RoundView, m: Move) -> RoundView {
    match m {
        Move::Claim => if v.next < v.names.len() {
            RoundView { next: v.next + 1, ..v }
        } else {
            v
        },
        Move::Close(i, reply) => RoundView { replies: v.replies.update(i, Some(reply)), ..v },
    }
}

/// A reply is handed in only for a package that was handed out, and once.
pub open spec fn may_move(v: RoundView, m: Move) -> bool {
    m matches Move::Close(i, _) ==> 0 <= i < v.next && v.replies[i] is None
}

/// The round of `names` after `moves`.
pub open spec fn round_after(names: Seq<Text>, moves: Seq<Move>) -> RoundView
    decreases moves.len(),
{
    if moves.len() == 0 {
        round_of(names)
    } else {
        moved(round_after(names, moves.drop_last()), moves.last())
    }
}

/// Each of `moves` may be made.
pub open spec fn are_moves(names: Seq<Text>, moves: Seq<Move>) -> bool
    decreases moves.len(),
{
    moves.len() > 0 ==> are_moves(names, moves.drop_last()) && may_move(
        round_after(names, moves.drop_last()),
        moves.last(),
    )
}

/// How many of `moves` hand out the package at `i`, and so tell that its fetch begins.
pub open spec fn begins(names: Seq<Text>, moves: Seq<Move>, i: int) -> int
    decreases moves.len(),
{
    if moves.len() == 0 {
        0
    } else {
        begins(names, moves.drop_last(), i) + if moves.last() is Claim && round_after(
            names,
            moves.drop_last(),
        ).next == i {
            1int
        } else {
            0
        }
    }
}

/// How many of `moves` hand in a reply for the package at `i`, and so tell that its fetch is over.
pub open spec fn ends(moves: Seq<Move>, i: int) -> int
    decreases moves.len(),
{
    if moves.len() == 0 {
        0
    } else {
        ends(moves.drop_last(), i) + if moves.last() matches Move::Close(k, _) && k == i {
            1int
        } else {
            0
        }
    }
}

/// Each fetch is told of twice, when it begins and when it is over, however it came out: at any
/// time a package has begun at most once, ended at most once, and not ended without having begun.
/// When the round is over every package has begun and ended once.
pub proof fn law_fetches_are_bracketed(names: Seq<Text>, moves: Seq<Move>, i: int)
    requires
        are_moves(names, moves),
        0 <= i < names.len(),
    ensures
        ({
            let v = round_after(names, moves);
            &&& ends(moves, i) <= begins(names, moves, i) <= 1
            &&& begins(names, moves, i) == 1 <==> i < v.next
            &&& ends(moves, i) == 1 <==> v.replies[i] is Some
            &&& 0 <= ends(moves, i)
            &&& is_over(v) ==> begins(names, moves, i) == 1 && ends(moves, i) == 1
        }),
    decreases moves.len(),
{
    lemma_round_is_whole(names, moves);
    if moves.len() > 0 {
        law_fetches_are_bracketed(names, moves.drop_last(), i);
        lemma_round_is_whole(names, moves.drop_last());
    }
}

proof fn lemma_round_is_whole(names: Seq<Text>, moves: Seq<Move>)
    requires
        are_moves(names, moves),
    ensures
        ({
            let v = round_after(names, moves);
            v.names == names && v.replies.len() == names.len() && 0 <= v.next <= names.len()
        }),
    decreases moves.len(),
{
    if moves.len() > 0 {
        lemma_round_is_whole(names, moves.drop_last());
    }
}

/// A reply stays what it is: whatever comes later, the reply that was handed in for a package is
/// the one that the round has for it, and when it is over that stands beside its name.
pub proof fn law_replies_are_kept(names: Seq<Text>, moves: Seq<Move>, k: int, i: int, reply: Reply)
    requires
        are_moves(names, moves),
        0 <= k < moves.len(),
        moves[k] == Move::Close(i, reply),
    ensures
        ({
            let v = round_after(names, moves);
            &&& 0 <= i < names.len()
            &&& v.names == names
            &&& v.replies.len() == names.len()
            &&& v.replies[i] == Some(reply)
            &&& collected(v).len() == names.len()
            &&& collected(v)[i] == (names[i], reply)
        }),
    decreases moves.len(),
{
    let shorter = moves.drop_last();
    lemma_round_is_whole(names, shorter);
    if k < shorter.len() {
        assert(shorter[k] == moves[k]);
        law_replies_are_kept(names, shorter, k, i, reply);
    } else {
        assert(moves.last() == moves[k]);
    }
}

}
