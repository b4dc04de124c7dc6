//! A lookahead window over the lexer's token stream: `next` consumes the
//! front token, `peek(k)` looks `k` positions ahead without consuming.  A
//! fixed-size queue of pre-fetched tokens slides over the stream; asking to
//! peek beyond the window is answered with nothing rather than silently
//! truncated.

use vstd::prelude::*;
use crate::lexical_analyzer::LexicalAnalyzer;
use crate::lexical_analyzer::Token;
use crate::lexical_analyzer::TokenModel;

verus! {

/// The models of the leading occupied slots of the window.
pub open spec fn somes_prefix(q: Seq<Option<Token>>) -> Seq<TokenModel>
    decreases q.len(),
{
    if q.len() == 0 || q[0] is None {
        Seq::empty()
    } else {
        seq![q[0]->Some_0.model()] + somes_prefix(q.skip(1))
    }
}

proof fn lemma_somes_prefix_le(q: Seq<Option<Token>>)
    ensures
        somes_prefix(q).len() <= q.len(),
    decreases q.len(),
{
    if q.len() > 0 && q[0] is Some {
        lemma_somes_prefix_le(q.skip(1));
    }
}

/// With empty slots only at the tail, slot `i` is occupied exactly when `i`
/// lies inside the occupied prefix, and holds that token.
proof fn lemma_somes_prefix_index(q: Seq<Option<Token>>, i: int)
    requires
        0 <= i < q.len(),
        forall|a: int, b: int| 0 <= a < b < q.len() && q[a] is None ==> q[b] is None,
    ensures
        i < somes_prefix(q).len() ==> q[i] is Some && somes_prefix(q)[i] == q[i]->Some_0.model(),
        i >= somes_prefix(q).len() ==> q[i] is None,
    decreases q.len(),
{
    lemma_somes_prefix_le(q);
    if q.len() > 0 && q[0] is Some {
        if i > 0 {
            assert(forall|a: int, b: int|
                0 <= a < b < q.skip(1).len() && q.skip(1)[a] is None ==> q.skip(1)[b] is None);
            lemma_somes_prefix_index(q.skip(1), i - 1);
        }
    } else {
        if i > 0 {
            assert(q[0] is None);
        }
    }
}

/// Appending to a window whose occupied prefix fills it extends the prefix;
/// appending after an empty slot leaves the prefix alone.
proof fn lemma_somes_prefix_push(q: Seq<Option<Token>>, x: Option<Token>)
    ensures
        somes_prefix(q).len() == q.len() && x is Some ==> somes_prefix(q.push(x)) == somes_prefix(
            q,
        ) + seq![x->Some_0.model()],
        somes_prefix(q).len() == q.len() && x is None ==> somes_prefix(q.push(x)) == somes_prefix(
            q,
        ),
        somes_prefix(q).len() < q.len() ==> somes_prefix(q.push(x)) == somes_prefix(q),
    decreases q.len(),
{
    lemma_somes_prefix_le(q);
    if q.len() == 0 {
        if x is Some {
            let qp = q.push(x);
            assert(qp[0] == x);
            assert(qp.skip(1) =~= Seq::<Option<Token>>::empty());
            assert(somes_prefix(qp.skip(1)) =~= Seq::<TokenModel>::empty());
            assert(somes_prefix(qp) == seq![qp[0]->Some_0.model()] + somes_prefix(qp.skip(1)));
            assert(somes_prefix(qp) =~= somes_prefix(q) + seq![x->Some_0.model()]);
        } else {
            assert(q.push(x)[0] == x);
            assert(somes_prefix(q.push(x)) =~= somes_prefix(q));
        }
    } else {
        assert(q.push(x)[0] == q[0]);
        if q[0] is Some {
            assert(q.push(x).skip(1) =~= q.skip(1).push(x));
            lemma_somes_prefix_push(q.skip(1), x);
            if somes_prefix(q).len() == q.len() && x is Some {
                assert(somes_prefix(q.skip(1)).len() == q.skip(1).len());
                assert(somes_prefix(q.push(x)) =~= somes_prefix(q) + seq![x->Some_0.model()]);
            }
        }
    }
}

/// The lookahead window.
pub struct PeekWrapper {
    pub iterator: LexicalAnalyzer,
    peek_queue: Vec<Option<Token>>,
    peek_size: u32,
}

impl PeekWrapper {
    /// Structural soundness of the window: the queue has the configured
    /// size, empty slots sit only at the tail, and an empty slot means the
    /// underlying stream is exhausted.
    pub closed spec fn wf(self) -> bool {
        &&& self.peek_queue@.len() == self.peek_size
        &&& self.peek_size >= 1
        &&& forall|a: int, b: int|
            0 <= a < b < self.peek_queue@.len() && self.peek_queue@[a] is None
                ==> self.peek_queue@[b] is None
        &&& somes_prefix(self.peek_queue@).len() < self.peek_queue@.len()
            ==> self.iterator.remaining().len() == 0
    }

    /// The configured window size.
    pub closed spec fn size(self) -> u32 {
        self.peek_size
    }

    /// The tokens not yet consumed: the pre-fetched window, then whatever
    /// the lexer still holds.
    pub closed spec fn remaining(self) -> Seq<TokenModel> {
        somes_prefix(self.peek_queue@) + self.iterator.remaining()
    }

    /// A sound window always has room for at least one token.
    pub proof fn lemma_wf_size(self)
        requires
            self.wf(),
        ensures
            self.size() >= 1,
    {
    }

    /// Wraps an analyzer, pre-fetching the first `size` tokens.
    pub fn new(it: LexicalAnalyzer, size: u32) -> (r: PeekWrapper)
        requires
            size >= 1,
        ensures
            r.wf(),
            r.size() == size,
            r.remaining() == it.remaining(),
    {
        let ghost orig = it.remaining();
        let mut iterator = it;
        let mut peek_vec: Vec<Option<Token>> = Vec::new();
        let mut i: u32 = 0;
        while i < size
            invariant
                i <= size,
                peek_vec@.len() == i,
                somes_prefix(peek_vec@) + iterator.remaining() == orig,
                forall|a: int, b: int|
                    0 <= a < b < peek_vec@.len() && peek_vec@[a] is None ==> peek_vec@[b] is None,
                somes_prefix(peek_vec@).len() < peek_vec@.len() ==> iterator.remaining().len()
                    == 0,
            decreases size - i,
        {
            proof {
                lemma_somes_prefix_le(peek_vec@);
            }
            let nxt = iterator.parse_next_token();
            proof {
                lemma_somes_prefix_push(peek_vec@, nxt);
                if nxt is Some {
                    assert(somes_prefix(peek_vec@).len() == peek_vec@.len());
                    assert forall|k: int| 0 <= k < peek_vec@.len() implies peek_vec@[k]
                        is Some by {
                        lemma_somes_prefix_index(peek_vec@, k);
                    }
                    assert(somes_prefix(peek_vec@.push(nxt)) + iterator.remaining() =~= orig);
                }
                assert forall|a: int, b: int|
                    0 <= a < b < peek_vec@.push(nxt).len() && peek_vec@.push(nxt)[a]
                        is None implies peek_vec@.push(nxt)[b] is None by {
                    if b < peek_vec@.len() {
                        assert(peek_vec@[a] is None);
                    }
                }
            }
            peek_vec.push(nxt);
            i = i + 1;
        }
        PeekWrapper { iterator, peek_queue: peek_vec, peek_size: size }
    }

    /// Consumes and returns the front token; nothing once the stream is
    /// exhausted.
    pub fn next(&mut self) -> (r: Option<Token>)
        requires
            old(self).wf(),
        ensures
            final(self).wf(),
            final(self).size() == old(self).size(),
            old(self).remaining().len() > 0 ==> r is Some && r->Some_0.model() == old(
                self,
            ).remaining()[0] && final(self).remaining() == old(self).remaining().skip(1),
            old(self).remaining().len() == 0 ==> r is None && final(self).remaining() == old(
                self,
            ).remaining(),
    {
        proof {
            lemma_somes_prefix_le(self.peek_queue@);
            lemma_somes_prefix_index(self.peek_queue@, 0);
        }
        let returned: Option<Token> = match &self.peek_queue[0] {
            Some(t) => Some(t.dup()),
            None => None,
        };
        let ghost preq = self.peek_queue@;
        self.peek_queue.remove(0);
        proof {
            assert(self.peek_queue@ =~= preq.skip(1));
        }
        let nxt = self.iterator.parse_next_token();
        proof {
            lemma_somes_prefix_le(self.peek_queue@);
            lemma_somes_prefix_push(self.peek_queue@, nxt);
            if nxt is Some {
                assert(somes_prefix(preq).len() == preq.len());
                assert forall|k: int| 0 <= k < preq.len() implies preq[k] is Some by {
                    lemma_somes_prefix_index(preq, k);
                }
                assert(somes_prefix(self.peek_queue@).len() == self.peek_queue@.len());
            }
            assert forall|a: int, b: int|
                0 <= a < b < self.peek_queue@.push(nxt).len() && self.peek_queue@.push(nxt)[a]
                    is None implies self.peek_queue@.push(nxt)[b] is None by {
                if b < self.peek_queue@.len() {
                    assert(self.peek_queue@[a] is None);
                    assert(preq[a + 1] is None);
                } else if self.peek_queue@.push(nxt)[a] is None && nxt is Some {
                    assert(self.peek_queue@[a] is Some);
                }
            }
            if preq[0] is None {
                assert(somes_prefix(preq) =~= Seq::<TokenModel>::empty());
                assert(forall|b: int| 0 < b < preq.len() ==> preq[b] is None);
                assert(somes_prefix(preq.skip(1)) =~= Seq::<TokenModel>::empty()) by {
                    if preq.skip(1).len() > 0 && preq.skip(1)[0] is Some {
                        assert(preq[1] is Some);
                        assert(false);
                    }
                }
            }
        }
        self.peek_queue.push(nxt);
        proof {
            if preq[0] is Some {
                assert(somes_prefix(preq) == seq![preq[0]->Some_0.model()] + somes_prefix(
                    preq.skip(1),
                ));
                assert(self.remaining() =~= old(self).remaining().skip(1));
            } else {
                assert(self.remaining() =~= old(self).remaining());
            }
        }
        returned
    }

    /// Returns the token `i` positions ahead without consuming anything;
    /// nothing when `i` reaches past the window or the stream's end.
    pub fn peek(&self, i: usize) -> (r: Option<Token>)
        requires
            self.wf(),
        ensures
            (i < self.remaining().len() && i < self.size()) ==> r is Some && r->Some_0.model()
                == self.remaining()[i as int],
            !(i < self.remaining().len() && i < self.size()) ==> r is None,
    {
        if i as u32 >= self.peek_size || i >= self.peek_queue.len() {
            proof {
                lemma_somes_prefix_le(self.peek_queue@);
            }
            return None;
        }
        proof {
            lemma_somes_prefix_le(self.peek_queue@);
            lemma_somes_prefix_index(self.peek_queue@, i as int);
        }
        match &self.peek_queue[i] {
            Some(t) => Some(t.dup()),
            None => None,
        }
    }
}

} // verus!
