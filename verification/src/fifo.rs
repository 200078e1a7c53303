use vstd::prelude::*;
use std::collections::VecDeque;

verus! {

/// A first-in first-out queue of payloads.
pub struct fifo<T> {
    items: VecDeque<T>,
}

impl<T> View for fifo<T> {
    type V = Seq<T>;

    /// The payloads in the queue, the first to come out first.
    closed spec fn view(&self) -> Seq<T> {
        self.items@
    }
}

/// A new, empty queue.
pub fn fifo_new<T>() -> (queue: fifo<T>)
    ensures
        queue@ == Seq::<T>::empty(),
{
    fifo { items: VecDeque::new() }
}

/// Empties the queue, handing back its payloads in queue order for the
/// caller to release.
pub fn fifo_free<T>(queue: fifo<T>) -> (payloads: Vec<T>)
    ensures
        payloads@ == queue@,
{
    let mut queue = queue;
    let ghost all = queue@;
    let mut payloads: Vec<T> = Vec::new();
    loop
        invariant
            payloads@ + queue@ == all,
        ensures
            payloads@ == all,
        decreases queue@.len(),
    {
        match fifo_pop(&mut queue) {
            Some(item) => {
                let ghost before = payloads@;
                payloads.push(item);
                assert(payloads@ + queue@ =~= before + seq![item] + queue@);
                assert(seq![item] + queue@ =~= seq![item] + queue@);
            },
            None => {
                assert(payloads@ + queue@ =~= payloads@);
                break ;
            },
        }
    }
    payloads
}

/// Puts `data` at the back of the queue.
pub fn fifo_push<T>(queue: &mut fifo<T>, data: T)
    ensures
        final(queue)@ == old(queue)@.push(data),
{
    queue.items.push_back(data);
}

/// Takes the payload at the front of the queue; `None` when it is empty.
pub fn fifo_pop<T>(queue: &mut fifo<T>) -> (data: Option<T>)
    ensures
        old(queue)@.len() == 0 ==> data is None && final(queue)@ == old(queue)@,
        old(queue)@.len() > 0 ==> data == Some(old(queue)@[0]) && final(queue)@
            == old(queue)@.drop_first(),
{
    queue.items.pop_front()
}

/// The payload at the front of the queue; `None` when it is empty.
pub fn fifo_peek_first<T>(queue: &fifo<T>) -> (data: Option<&T>)
    ensures
        queue@.len() == 0 ==> data is None,
        queue@.len() > 0 ==> data == Some(&queue@[0]),
{
    if queue.items.len() == 0 {
        None
    } else {
        Some(&queue.items[0])
    }
}

/// The payload at the back of the queue; `None` when it is empty.
pub fn fifo_peek_last<T>(queue: &fifo<T>) -> (data: Option<&T>)
    ensures
        queue@.len() == 0 ==> data is None,
        queue@.len() > 0 ==> data == Some(&queue@[queue@.len() - 1]),
{
    let n = queue.items.len();
    if n == 0 {
        None
    } else {
        Some(&queue.items[n - 1])
    }
}

/// First in, first out: pushing a payload at the back does not change
/// which payload comes out next, unless the queue was empty, and the pushed
/// payload comes out after all those that were already queued.
pub proof fn lemma_fifo_first_in_first_out<T>(q: Seq<T>, x: T)
    ensures
        q.push(x)[0] == if q.len() == 0 {
            x
        } else {
            q[0]
        },
        q.len() > 0 ==> q.push(x).drop_first() == q.drop_first().push(x),
        q.len() == 0 ==> q.push(x).drop_first() == Seq::<T>::empty(),
        q.push(x).last() == x,
{
    if q.len() > 0 {
        assert(q.push(x).drop_first() =~= q.drop_first().push(x));
    } else {
        assert(q.push(x).drop_first() =~= Seq::<T>::empty());
    }
}

} // verus!
